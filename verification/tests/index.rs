use termail::maillist::{
    count_unread, mail_rows, make_record, mark_read, set_read_at, sort_records, EntryData,
    MailRecord,
};

fn rec(id: &str, unread: bool, timestamp: i64) -> MailRecord {
    MailRecord {
        id: id.to_string(),
        is_unread: unread,
        timestamp,
        sender: format!("{} sender", id),
        subject: format!("{} subject", id),
        mailbox: "Inbox".to_string(),
    }
}

fn ids(records: &[MailRecord]) -> Vec<String> {
    records.iter().map(|r| r.id.clone()).collect()
}

#[test]
fn sort_unread_first_then_time_descending() {
    // Inbox with unread A at t=100, unread B at t=200, read C at t=50.
    let input = vec![rec("A", true, 100), rec("B", true, 200), rec("C", false, 50)];
    let sorted = sort_records(input);
    assert_eq!(ids(&sorted), vec!["B", "A", "C"]);
    assert!(sorted[0].is_unread && sorted[1].is_unread && !sorted[2].is_unread);
}

#[test]
fn sort_read_with_late_timestamp_stays_after_unread() {
    let input = vec![rec("old", false, 900), rec("new", true, 1)];
    let sorted = sort_records(input);
    assert_eq!(ids(&sorted), vec!["new", "old"]);
}

#[test]
fn sort_ties_keep_discovery_order() {
    let input = vec![rec("first", true, 100), rec("second", true, 100), rec("third", true, 100)];
    let sorted = sort_records(input);
    assert_eq!(ids(&sorted), vec!["first", "second", "third"]);
}

#[test]
fn sort_negative_timestamps_are_tolerated() {
    let input = vec![rec("a", false, -5), rec("b", false, 3)];
    let sorted = sort_records(input);
    assert_eq!(ids(&sorted), vec!["b", "a"]);
}

#[test]
fn make_record_reads_headers() {
    let raw = b"From: Alice <alice@example.org>\nSubject: Greetings\nDate: Thu, 1 Jan 1970 00:01:40 +0000\n\nhello\n".to_vec();
    let e = EntryData { id: "m1".to_string(), raw: Some(raw) };
    let r = make_record(e, true, &"Inbox".to_string());
    assert_eq!(r.id, "m1");
    assert!(r.is_unread);
    assert_eq!(r.timestamp, 100);
    assert_eq!(r.sender, "Alice <alice@example.org>");
    assert_eq!(r.subject, "Greetings");
    assert_eq!(r.mailbox, "Inbox");
}

#[test]
fn make_record_defaults_when_unreadable() {
    let e = EntryData { id: "m2".to_string(), raw: None };
    let r = make_record(e, false, &"Inbox".to_string());
    assert!(!r.is_unread);
    assert_eq!(r.timestamp, 0);
    assert_eq!(r.sender, "No Sender");
    assert_eq!(r.subject, "No Subject");
}

#[test]
fn make_record_defaults_when_headers_missing() {
    let raw = b"X-Other: nothing useful\n\nbody\n".to_vec();
    let e = EntryData { id: "m3".to_string(), raw: Some(raw) };
    let r = make_record(e, true, &"Inbox".to_string());
    assert_eq!(r.timestamp, 0);
    assert_eq!(r.sender, "No Sender");
    assert_eq!(r.subject, "No Subject");
}

#[test]
fn make_record_malformed_date_defaults_to_zero() {
    let raw = b"Date: not a date at all\n\nbody\n".to_vec();
    let e = EntryData { id: "m4".to_string(), raw: Some(raw) };
    let r = make_record(e, true, &"Inbox".to_string());
    assert_eq!(r.timestamp, 0);
}

#[test]
fn mark_read_out_of_range_fails_and_changes_nothing() {
    let mut records = vec![rec("A", true, 100)];
    let r = mark_read(&mut records, 5);
    assert!(r.is_err());
    assert_eq!(records.len(), 1);
    assert!(records[0].is_unread);
}

#[test]
fn mark_read_on_read_record_succeeds_unchanged() {
    let mut records = vec![rec("A", false, 100)];
    let r = mark_read(&mut records, 0);
    assert!(r.is_ok());
    assert!(!records[0].is_unread);
}

#[test]
fn set_read_at_flips_only_the_flag() {
    let mut records = vec![rec("A", true, 100), rec("B", true, 200)];
    set_read_at(&mut records, 1);
    assert!(records[0].is_unread);
    assert!(!records[1].is_unread);
    assert_eq!(records[1].id, "B");
    assert_eq!(records[1].timestamp, 200);
    assert_eq!(count_unread(&records), 1);
}

#[test]
fn count_unread_counts_only_unread() {
    let records = vec![rec("A", true, 1), rec("B", false, 2), rec("C", true, 3)];
    assert_eq!(count_unread(&records), 2);
}

#[test]
fn mail_rows_carry_index_fields_and_emphasis() {
    let records = vec![rec("B", true, 200), rec("C", false, 50)];
    let rows = mail_rows(&records);
    assert_eq!(rows.len(), 2);
    assert_eq!(rows[0].index, 0);
    assert_eq!(rows[0].timestamp, 200);
    assert_eq!(rows[0].sender, "B sender");
    assert_eq!(rows[0].subject, "B subject");
    assert!(rows[0].unread);
    assert_eq!(rows[1].index, 1);
    assert!(!rows[1].unread);
}
