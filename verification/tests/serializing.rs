use canister_logs::budget::bounded_document;
use canister_logs::json::{document_of, encode_entry, entry_json};
use canister_logs::text::{byte_length, push_decimal};
use canister_logs::{Log, LogEntry, Priority};

fn entry(timestamp: u64, priority: Priority, message: &str, counter: u64) -> LogEntry {
    LogEntry {
        timestamp,
        priority,
        file: "a.rs".to_string(),
        line: 2,
        message: message.to_string(),
        counter,
    }
}

fn numbered(count: u64) -> Log {
    let mut entries = Vec::new();
    for counter in 0..count {
        entries.push(entry(1000 + counter, Priority::Debug, &"x".repeat((counter % 7) as usize), counter));
    }
    Log { entries }
}

fn prefix(log: &Log, count: usize) -> Log {
    Log { entries: log.entries[..count].to_vec() }
}

fn by_linear_scan(log: &Log, max: usize) -> String {
    let mut count = log.entries.len();
    loop {
        let text = prefix(log, count).serialize_logs(usize::MAX);
        if text.len() <= max || count == 0 {
            return text;
        }
        count -= 1;
    }
}

#[test]
fn decimal_has_no_leading_zero() {
    for (number, expected) in [
        (0u64, "0"),
        (7, "7"),
        (9, "9"),
        (10, "10"),
        (99, "99"),
        (100, "100"),
        (1234567890, "1234567890"),
        (u64::MAX, "18446744073709551615"),
    ] {
        let mut out = String::new();
        push_decimal(&mut out, number);
        assert_eq!(out, expected);
    }
}

#[test]
fn decimal_is_appended_to_what_is_there() {
    let mut out = "n=".to_string();
    push_decimal(&mut out, 42);
    push_decimal(&mut out, 0);
    assert_eq!(out, "n=420");
}

#[test]
fn byte_length_counts_bytes_not_characters() {
    assert_eq!(byte_length(""), 0);
    assert_eq!(byte_length("abc"), 3);
    assert_eq!(byte_length("\u{e9}"), 2);
    assert_eq!(byte_length("\u{20ac}"), 3);
    assert_eq!(byte_length("\u{1f600}"), 4);
    assert_eq!(byte_length("a\u{e9}\u{20ac}\u{1f600}"), 10);
}

#[test]
fn entry_json_lays_out_the_fields() {
    let text = entry_json(&entry(1, Priority::Info, "ignored", 3), "\"F\"", "\"M\"");
    assert_eq!(
        text,
        "{\"timestamp\":1,\"priority\":\"Info\",\"file\":\"F\",\"line\":2,\"message\":\"M\",\"counter\":3}"
    );
}

#[test]
fn encode_entry_quotes_and_escapes_its_strings() {
    let mut with_quotes = entry(18446744073709551615, Priority::Error, "say \"hi\"\n\tnow \\ then", 0);
    with_quotes.file = "src\\logs.rs".to_string();
    with_quotes.line = 4294967295;
    assert_eq!(
        encode_entry(&with_quotes),
        Some(
            "{\"timestamp\":18446744073709551615,\"priority\":\"Error\",\"file\":\"src\\\\logs.rs\",\"line\":4294967295,\"message\":\"say \\\"hi\\\"\\n\\tnow \\\\ then\",\"counter\":0}"
                .to_string()
        )
    );
}

#[test]
fn encode_entry_escapes_control_characters() {
    let text = encode_entry(&entry(1, Priority::Debug, "a\u{1}b\u{7f}c", 1)).unwrap();
    assert_eq!(
        text,
        "{\"timestamp\":1,\"priority\":\"Debug\",\"file\":\"a.rs\",\"line\":2,\"message\":\"a\\u0001b\u{7f}c\",\"counter\":1}"
    );
}

#[test]
fn document_of_joins_with_commas() {
    let objects = vec!["{}".to_string(), "{\"a\":1}".to_string(), "{\"b\":2}".to_string()];
    assert_eq!(document_of(&objects, 0), "{\"entries\":[]}");
    assert_eq!(document_of(&objects, 1), "{\"entries\":[{}]}");
    assert_eq!(document_of(&objects, 2), "{\"entries\":[{},{\"a\":1}]}");
    assert_eq!(document_of(&objects, 3), "{\"entries\":[{},{\"a\":1},{\"b\":2}]}");
}

#[test]
fn encode_entries_writes_one_object_for_each_entry() {
    let log = Log { entries: vec![entry(1, Priority::Info, "a", 1), entry(2, Priority::Error, "b", 2)] };
    let objects = log.encode_entries().unwrap();
    assert_eq!(objects.len(), 2);
    assert_eq!(Some(objects[0].clone()), encode_entry(&log.entries[0]));
    assert_eq!(Some(objects[1].clone()), encode_entry(&log.entries[1]));
    assert_eq!(Log::default().encode_entries(), Some(Vec::new()));
}

#[test]
fn a_log_that_fits_is_written_whole() {
    let log = Log { entries: vec![entry(1, Priority::Info, "hi", 3), entry(5, Priority::Debug, "yo", 4)] };
    let expected = "{\"entries\":[{\"timestamp\":1,\"priority\":\"Info\",\"file\":\"a.rs\",\"line\":2,\"message\":\"hi\",\"counter\":3},{\"timestamp\":5,\"priority\":\"Debug\",\"file\":\"a.rs\",\"line\":2,\"message\":\"yo\",\"counter\":4}]}";
    assert_eq!(expected.len(), 182);
    assert_eq!(log.serialize_logs(usize::MAX), expected);
    assert_eq!(log.serialize_logs(182), expected);
}

#[test]
fn one_byte_short_drops_the_last_entry() {
    let log = Log { entries: vec![entry(1, Priority::Info, "hi", 3), entry(5, Priority::Debug, "yo", 4)] };
    let first_only = "{\"entries\":[{\"timestamp\":1,\"priority\":\"Info\",\"file\":\"a.rs\",\"line\":2,\"message\":\"hi\",\"counter\":3}]}";
    assert_eq!(first_only.len(), 97);
    assert_eq!(log.serialize_logs(181), first_only);
    assert_eq!(log.serialize_logs(97), first_only);
    assert_eq!(log.serialize_logs(96), "{\"entries\":[]}");
}

#[test]
fn the_budget_counts_bytes() {
    let log = Log { entries: vec![entry(1, Priority::Info, "\u{e9}\u{e9}", 3)] };
    let whole = log.serialize_logs(usize::MAX);
    assert_eq!(whole.chars().count(), 97);
    assert_eq!(whole.len(), 99);
    assert_eq!(log.serialize_logs(99), whole);
    assert_eq!(log.serialize_logs(98), "{\"entries\":[]}");
    assert_eq!(log.serialize_logs(97), "{\"entries\":[]}");
}

#[test]
fn a_budget_below_the_empty_document_yields_the_empty_document() {
    let log = numbered(4);
    assert_eq!(log.serialize_logs(5), "{\"entries\":[]}");
    assert_eq!(log.serialize_logs(0), "{\"entries\":[]}");
    assert_eq!(log.serialize_logs(13), "{\"entries\":[]}");
    assert_eq!(log.serialize_logs(14), "{\"entries\":[]}");
    assert!(log.serialize_logs(5).len() > 5);
}

#[test]
fn an_empty_log_is_the_empty_document_under_any_budget() {
    let log = Log::default();
    for max in [0, 1, 5, 13, 14, 15, 1000, usize::MAX] {
        assert_eq!(log.serialize_logs(max), "{\"entries\":[]}");
    }
}

#[test]
fn ten_objects_of_fifty_bytes_under_three_hundred() {
    let mut objects = Vec::new();
    for digit in 0..10 {
        let object = format!("{{\"k\":\"{}\"}}", digit.to_string().repeat(42));
        assert_eq!(object.len(), 50);
        objects.push(object);
    }
    assert_eq!(document_of(&objects, 10).len(), 523);
    let out = bounded_document(&objects, 300);
    assert_eq!(out, document_of(&objects, 5));
    assert_eq!(out.len(), 268);
    assert!(document_of(&objects, 6).len() > 300);
    assert_eq!(bounded_document(&objects, 523), document_of(&objects, 10));
    assert_eq!(bounded_document(&objects, 522), document_of(&objects, 9));
}

#[test]
fn ten_entries_under_a_budget_for_five() {
    let mut entries = Vec::new();
    for counter in 0..10u64 {
        entries.push(entry(counter, Priority::Info, "0123456789", counter));
    }
    let log = Log { entries };
    let one = prefix(&log, 1).serialize_logs(usize::MAX).len() - 14;
    assert_eq!(one, 91);
    let budget = 14 + 5 * one + 4 + 50;
    let out = log.serialize_logs(budget);
    assert_eq!(out, prefix(&log, 5).serialize_logs(usize::MAX));
    assert!(out.len() <= budget);
    assert!(prefix(&log, 6).serialize_logs(usize::MAX).len() > budget);
}

#[test]
fn bisection_agrees_with_a_linear_scan() {
    let log = numbered(23);
    let whole = log.serialize_logs(usize::MAX).len();
    for max in 0..whole + 3 {
        let out = log.serialize_logs(max);
        assert_eq!(out, by_linear_scan(&log, max));
        if max >= 14 {
            assert!(out.len() <= max);
        }
        if max >= whole {
            assert_eq!(out.len(), whole);
        }
    }
}

#[test]
fn a_longer_prefix_never_takes_fewer_bytes() {
    let log = numbered(30);
    let mut last = 0;
    for count in 0..=30 {
        let len = prefix(&log, count).serialize_logs(usize::MAX).len();
        assert!(len >= last);
        last = len;
    }
}

#[test]
fn bounded_document_of_nothing_is_the_empty_document() {
    assert_eq!(bounded_document(&Vec::new(), 0), "{\"entries\":[]}");
    assert_eq!(bounded_document(&Vec::new(), 100), "{\"entries\":[]}");
}

#[test]
fn the_document_is_read_back_without_loss() {
    let mut odd = entry(u64::MAX, Priority::Error, "line one\nline \"two\" \u{20ac} \u{0}", u64::MAX);
    odd.file = "dir/\u{e9}t\u{e9}.rs".to_string();
    odd.line = u32::MAX;
    let log = Log { entries: vec![entry(0, Priority::Info, "", 0), odd] };
    let text = log.serialize_logs(usize::MAX);
    let value: serde_json::Value = serde_json::from_str(&text).unwrap();
    let entries = value.get("entries").unwrap().as_array().unwrap();
    assert_eq!(entries.len(), 2);
    assert_eq!(entries[0].get("timestamp").unwrap().as_u64(), Some(0));
    assert_eq!(entries[0].get("priority").unwrap().as_str(), Some("Info"));
    assert_eq!(entries[0].get("message").unwrap().as_str(), Some(""));
    assert_eq!(entries[1].get("timestamp").unwrap().as_u64(), Some(u64::MAX));
    assert_eq!(entries[1].get("priority").unwrap().as_str(), Some("Error"));
    assert_eq!(entries[1].get("file").unwrap().as_str(), Some("dir/\u{e9}t\u{e9}.rs"));
    assert_eq!(entries[1].get("line").unwrap().as_u64(), Some(u32::MAX as u64));
    assert_eq!(
        entries[1].get("message").unwrap().as_str(),
        Some("line one\nline \"two\" \u{20ac} \u{0}")
    );
    assert_eq!(entries[1].get("counter").unwrap().as_u64(), Some(u64::MAX));
    assert_eq!(entries[1].as_object().unwrap().len(), 6);
}

#[test]
fn serializing_leaves_the_log_as_it_is() {
    let log = numbered(5);
    let before = log.entries.clone();
    let first = log.serialize_logs(200);
    let second = log.serialize_logs(200);
    assert_eq!(first, second);
    assert_eq!(log.entries, before);
}
