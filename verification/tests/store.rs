use maildir::Maildir;
use std::time::{SystemTime, UNIX_EPOCH};
use termail::mailboxes::{scan_dir, DirNode};
use termail::maillist::{count_unread, fetch_raw, load_mailbox, mark_read};
use termail::mailbody::extract_text;

fn unique_root(tag: &str) -> String {
    let n = SystemTime::now().duration_since(UNIX_EPOCH).unwrap().as_nanos();
    format!("/tmp/termail_store_{tag}_{n}")
}

/// An Inbox with unread A at t=100 and B at t=200 and read C at t=50.
fn make_inbox(root: &str) -> String {
    let inbox = format!("{root}/Inbox");
    let md = Maildir::from(inbox.clone());
    md.create_dirs().expect("maildir dirs");
    md.store_new(b"From: a@example.org\nSubject: A\nDate: Thu, 1 Jan 1970 00:01:40 +0000\n\nbody of A\n")
        .expect("store A");
    md.store_new(b"From: b@example.org\nSubject: B\nDate: Thu, 1 Jan 1970 00:03:20 +0000\n\nbody of B\n")
        .expect("store B");
    md.store_cur_with_flags(
        b"From: c@example.org\nSubject: C\nDate: Thu, 1 Jan 1970 00:00:50 +0000\n\nbody of C\n",
        "S",
    )
    .expect("store C");
    inbox
}

#[test]
fn load_orders_unread_first_by_descending_time() {
    let root = unique_root("load");
    let inbox = make_inbox(&root);
    let records = load_mailbox(&inbox);
    assert_eq!(records.len(), 3);
    let subjects: Vec<&str> = records.iter().map(|r| r.subject.as_str()).collect();
    assert_eq!(subjects, vec!["B", "A", "C"]);
    assert_eq!(records[0].timestamp, 200);
    assert_eq!(records[1].timestamp, 100);
    assert_eq!(records[2].timestamp, 50);
    assert!(records[0].is_unread && records[1].is_unread && !records[2].is_unread);
    assert_eq!(count_unread(&records), 2);
}

#[test]
fn load_twice_is_identical() {
    let root = unique_root("twice");
    let inbox = make_inbox(&root);
    let first = load_mailbox(&inbox);
    let second = load_mailbox(&inbox);
    assert_eq!(first.len(), second.len());
    for (a, b) in first.iter().zip(second.iter()) {
        assert_eq!(a.id, b.id);
        assert_eq!(a.is_unread, b.is_unread);
        assert_eq!(a.timestamp, b.timestamp);
        assert_eq!(a.sender, b.sender);
        assert_eq!(a.subject, b.subject);
    }
}

#[test]
fn mark_read_relocates_and_next_load_agrees() {
    let root = unique_root("mark");
    let inbox = make_inbox(&root);
    let mut records = load_mailbox(&inbox);
    assert_eq!(records[0].subject, "B");
    let marked_id = records[0].id.clone();

    mark_read(&mut records, 0).expect("relocation succeeds");
    assert!(!records[0].is_unread);
    assert_eq!(count_unread(&records), 1);

    // The message physically moved from the unread to the read area.
    let md = Maildir::from(inbox.clone());
    assert_eq!(md.count_new(), 1);
    assert_eq!(md.count_cur(), 2);

    // A fresh load no longer counts it among the unread records.
    let reloaded = load_mailbox(&inbox);
    assert_eq!(count_unread(&reloaded), 1);
    let b = reloaded.iter().find(|r| r.id == marked_id).expect("B still listed");
    assert!(!b.is_unread);
}

#[test]
fn scan_reports_unread_counts_and_drops_after_read() {
    let root = unique_root("scan");
    let inbox = make_inbox(&root);
    let shape = DirNode {
        name: "mail".to_string(),
        path: root.clone(),
        unread: 0,
        children: vec![DirNode {
            name: "Inbox".to_string(),
            path: inbox.clone(),
            unread: 0,
            children: vec![],
        }],
    };

    let tree = scan_dir(&shape, 2);
    assert_eq!(tree.label, "mail(2)");
    assert_eq!(tree.children[0].label, "Inbox(2)");

    // Read one message; the ancestor mailbox's count drops by exactly 1.
    let mut records = load_mailbox(&inbox);
    mark_read(&mut records, 0).expect("relocation succeeds");
    let rescanned = scan_dir(&shape, 2);
    assert_eq!(rescanned.label, "mail(1)");
    assert_eq!(rescanned.children[0].label, "Inbox(1)");
}

#[test]
fn fetch_raw_and_extract_give_the_body() {
    let root = unique_root("fetch");
    let inbox = make_inbox(&root);
    let records = load_mailbox(&inbox);
    let raw = fetch_raw(&records[0]).expect("message file readable");
    let lines = extract_text(&raw).expect("message parses");
    assert_eq!(lines, vec!["body of B"]);
}
