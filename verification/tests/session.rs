use termail::mailboxes::{dir_tree, DirNode};
use termail::maillist::{count_unread, set_read_at, sort_records, MailRecord};
use termail::update::{Command, FocusState, NavDirection, Panel, Selection, Session, StepAction};

fn rec(id: &str, unread: bool, timestamp: i64) -> MailRecord {
    MailRecord {
        id: id.to_string(),
        is_unread: unread,
        timestamp,
        sender: "s".to_string(),
        subject: id.to_string(),
        mailbox: "Inbox".to_string(),
    }
}

fn inbox_session() -> Session {
    let t = DirNode {
        name: "Inbox".to_string(),
        path: "/m/Inbox".to_string(),
        unread: 2,
        children: vec![],
    };
    Session::new(dir_tree(&t, 2))
}

fn sel(node_is_leaf: bool, row: usize) -> Selection {
    Selection { node_is_leaf, row }
}

#[test]
fn starts_on_mailbox_tree() {
    let s = inbox_session();
    assert_eq!(s.focus.panel, Panel::Mailboxes);
    assert!(!s.focus.done);
}

#[test]
fn navigate_forwards_to_cursor_without_focus_change() {
    let mut s = inbox_session();
    let a = s.handle(Command::Navigate(NavDirection::Down), sel(false, 0));
    assert_eq!(a, StepAction::MoveCursor(NavDirection::Down));
    assert_eq!(s.focus.panel, Panel::Mailboxes);
}

#[test]
fn switch_focus_cycles_tree_and_list() {
    let mut s = inbox_session();
    s.handle(Command::SwitchFocus, sel(false, 0));
    assert_eq!(s.focus.panel, Panel::MailList);
    s.handle(Command::SwitchFocus, sel(false, 0));
    assert_eq!(s.focus.panel, Panel::Mailboxes);
}

#[test]
fn select_leaf_node_loads_and_moves_to_list() {
    let mut s = inbox_session();
    let a = s.handle(Command::SelectNode, sel(true, 0));
    assert_eq!(a, StepAction::LoadMailbox);
    assert_eq!(s.focus.panel, Panel::MailList);
}

#[test]
fn select_non_leaf_node_toggles_expansion_only() {
    let mut s = inbox_session();
    let a = s.handle(Command::SelectNode, sel(false, 0));
    assert_eq!(a, StepAction::ToggleExpand);
    assert_eq!(s.focus.panel, Panel::Mailboxes);
}

#[test]
fn help_overlay_owns_input_until_dismissed() {
    let mut s = inbox_session();
    s.handle(Command::SwitchFocus, sel(false, 0));
    assert_eq!(s.focus.panel, Panel::MailList);
    s.handle(Command::ToggleHelp, sel(false, 0));
    assert_eq!(s.focus.panel, Panel::HelpOverlay);
    // While the overlay is active, other commands do nothing.
    let a = s.handle(Command::Navigate(NavDirection::Up), sel(false, 0));
    assert_eq!(a, StepAction::Idle);
    assert_eq!(s.focus.panel, Panel::HelpOverlay);
    let a = s.handle(Command::SelectRow, sel(false, 0));
    assert_eq!(a, StepAction::Idle);
    // Dismissing restores the remembered focus.
    s.handle(Command::DismissOverlay, sel(false, 0));
    assert_eq!(s.focus.panel, Panel::MailList);
}

#[test]
fn error_overlay_restores_triggering_panel() {
    let mut s = inbox_session();
    s.focus.fail();
    assert_eq!(s.focus.panel, Panel::ErrorOverlay);
    s.handle(Command::DismissOverlay, sel(false, 0));
    assert_eq!(s.focus.panel, Panel::Mailboxes);
}

#[test]
fn failed_open_returns_to_the_mail_list() {
    // Selecting a row moves focus to the body; if showing the message
    // then fails, dismissing the error overlay restores the mail list
    // that issued the selection, not the body panel.
    let mut s = inbox_session();
    s.handle(Command::SelectNode, sel(true, 0));
    s.set_records(vec![rec("A", true, 100)]);
    let a = s.handle(Command::SelectRow, sel(false, 0));
    assert_eq!(a, StepAction::OpenMessage(0, true));
    assert_eq!(s.focus.panel, Panel::MailBody);
    s.focus.fail();
    assert_eq!(s.focus.panel, Panel::ErrorOverlay);
    s.handle(Command::DismissOverlay, sel(false, 0));
    assert_eq!(s.focus.panel, Panel::MailList);
}

#[test]
fn failed_load_returns_to_the_mailbox_tree() {
    // Selecting a leaf moves focus to the mail list; if loading the
    // index then fails, dismissing the error overlay restores the tree.
    let mut s = inbox_session();
    let a = s.handle(Command::SelectNode, sel(true, 0));
    assert_eq!(a, StepAction::LoadMailbox);
    assert_eq!(s.focus.panel, Panel::MailList);
    s.focus.fail();
    s.handle(Command::DismissOverlay, sel(false, 0));
    assert_eq!(s.focus.panel, Panel::Mailboxes);
}

#[test]
fn quit_works_from_any_state_and_sticks() {
    let mut s = inbox_session();
    s.handle(Command::ToggleHelp, sel(false, 0));
    let a = s.handle(Command::Quit, sel(false, 0));
    assert_eq!(a, StepAction::Terminate);
    assert!(s.focus.done);
    let a = s.handle(Command::SwitchFocus, sel(false, 0));
    assert_eq!(a, StepAction::Idle);
    assert!(s.focus.done);
}

#[test]
fn select_row_on_unread_asks_for_mark_read() {
    // Inbox with unread A at t=100 and B at t=200, read C at t=50:
    // the loaded index is [B, A, C].
    let mut s = inbox_session();
    s.handle(Command::SelectNode, sel(true, 0));
    let loaded = sort_records(vec![rec("A", true, 100), rec("B", true, 200), rec("C", false, 50)]);
    s.set_records(loaded);
    assert_eq!(s.records[0].subject, "B");
    assert_eq!(count_unread(&s.records), 2);

    // Selecting B's row opens the body and asks for a mark-read.
    let a = s.handle(Command::SelectRow, sel(false, 0));
    assert_eq!(a, StepAction::OpenMessage(0, true));
    assert_eq!(s.focus.panel, Panel::MailBody);

    // Marking B read drops the unread count from 2 to 1.
    set_read_at(&mut s.records, 0);
    assert!(!s.records[0].is_unread);
    assert_eq!(count_unread(&s.records), 1);
}

#[test]
fn select_row_on_read_record_needs_no_mark() {
    let mut s = inbox_session();
    s.handle(Command::SelectNode, sel(true, 0));
    s.set_records(vec![rec("C", false, 50)]);
    s.handle(Command::SwitchFocus, sel(false, 0));
    assert_eq!(s.focus.panel, Panel::Mailboxes);
    s.handle(Command::SwitchFocus, sel(false, 0));
    let a = s.handle(Command::SelectRow, sel(false, 0));
    assert_eq!(a, StepAction::OpenMessage(0, false));
}

#[test]
fn focus_state_new_matches_session() {
    let f = FocusState::new();
    assert_eq!(f.panel, Panel::Mailboxes);
    assert_eq!(f.prior, Panel::Mailboxes);
    assert!(!f.done);
}
