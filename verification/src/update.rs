//! The focus state machine: routes normalized input commands among the
//! mailbox tree, the mail list, the message body and the two overlays,
//! and tells the caller which side effect to perform.
//!
//! Navigation while the body panel is focused is forwarded to its cursor
//! just as for the tree and the list.  While an overlay is active it owns
//! all input: only dismissing it and quitting act.  Once the machine has
//! quit it stays quit.

use crate::maillist::{records_view, MailRecord};
use crate::mailboxes::MailboxNode;
use vstd::prelude::*;

verus! {

/// The panels among which focus moves; the two overlays are panels too.
#[derive(Clone, Copy, PartialEq, Eq, Structural, Debug)]
pub enum Panel {
    Mailboxes,
    MailList,
    MailBody,
    HelpOverlay,
    ErrorOverlay,
}

/// A direction handed on to the focused panel's cursor.
#[derive(Clone, Copy, PartialEq, Eq, Structural, Debug)]
pub enum NavDirection {
    Up,
    Down,
    Left,
    Right,
}

/// The normalized command set the machine consumes.
#[derive(Clone, Copy, PartialEq, Eq, Structural, Debug)]
pub enum Command {
    Navigate(NavDirection),
    SelectNode,
    SelectRow,
    SwitchFocus,
    ToggleHelp,
    DismissOverlay,
    Quit,
}

/// The side effect the caller must perform after a step.
#[derive(Clone, Copy, PartialEq, Eq, Structural, Debug)]
pub enum StepAction {
    /// Nothing to do.
    Idle,
    /// Hand the direction to the focused panel's cursor.
    MoveCursor(NavDirection),
    /// Load the mail index of the selected tree leaf.
    LoadMailbox,
    /// Expand or collapse the selected non-leaf tree node.
    ToggleExpand,
    /// Show the message at this row; when the second field holds, the
    /// row was unread and must be marked read, after which the mailbox
    /// tree is rescanned.
    OpenMessage(usize, bool),
    /// Leave the run loop.
    Terminate,
}

/// What the focused widgets currently point at: whether the selected
/// tree node is a leaf, and the selected list row.
#[derive(Clone, Copy, PartialEq, Eq, Structural, Debug)]
pub struct Selection {
    pub node_is_leaf: bool,
    pub row: usize,
}

/// The focus part of the machine: the active panel, the focus to restore
/// when an overlay is dismissed, and whether the machine has quit.
#[derive(Clone, Copy, PartialEq, Eq, Structural, Debug)]
pub struct FocusState {
    pub panel: Panel,
    pub prior: Panel,
    pub done: bool,
}

/// An overlay panel.
pub open spec fn is_overlay(p: Panel) -> bool {
    p == Panel::HelpOverlay || p == Panel::ErrorOverlay
}

/// The machine never remembers an overlay as the focus to restore.
pub open spec fn focus_inv(s: FocusState) -> bool {
    !is_overlay(s.prior)
}

/// Where `SwitchFocus` moves: the tree and the list alternate, and the
/// body panel hands focus back to the tree.
pub open spec fn switch_target(p: Panel) -> Panel {
    match p {
        Panel::Mailboxes => Panel::MailList,
        Panel::MailList => Panel::Mailboxes,
        Panel::MailBody => Panel::Mailboxes,
        _ => p,
    }
}

/// One transition of the machine: the next focus state and the side
/// effect the caller must perform.  `row_unread` says whether the
/// selected list row is an unread record.
///
/// A selection that moves focus also records the panel that issued it as
/// the focus to restore: when performing the selection's side effect
/// fails and the error overlay comes up, dismissing the overlay then
/// returns to the triggering panel.
pub open spec fn step_spec(s: FocusState, cmd: Command, sel: Selection, row_unread: bool) -> (
    FocusState,
    StepAction,
) {
    if s.done {
        (s, StepAction::Idle)
    } else if cmd == Command::Quit {
        (FocusState { done: true, ..s }, StepAction::Terminate)
    } else if is_overlay(s.panel) {
        if cmd == Command::DismissOverlay {
            (FocusState { panel: s.prior, ..s }, StepAction::Idle)
        } else {
            (s, StepAction::Idle)
        }
    } else {
        match cmd {
            Command::Navigate(d) => (s, StepAction::MoveCursor(d)),
            Command::SwitchFocus => ((FocusState { panel: switch_target(s.panel), ..s }), StepAction::Idle),
            Command::ToggleHelp => ((FocusState { panel: Panel::HelpOverlay, prior: s.panel, ..s }), StepAction::Idle),
            Command::SelectNode => if s.panel == Panel::Mailboxes {
                if sel.node_is_leaf {
                    ((FocusState { panel: Panel::MailList, prior: s.panel, ..s }), StepAction::LoadMailbox)
                } else {
                    (s, StepAction::ToggleExpand)
                }
            } else {
                (s, StepAction::Idle)
            },
            Command::SelectRow => if s.panel == Panel::MailList {
                ((FocusState { panel: Panel::MailBody, prior: s.panel, ..s }), StepAction::OpenMessage(sel.row, row_unread))
            } else {
                (s, StepAction::Idle)
            },
            Command::DismissOverlay => (s, StepAction::Idle),
            Command::Quit => (s, StepAction::Idle),
        }
    }
}

impl FocusState {
    /// The machine starts on the mailbox tree.
    pub fn new() -> (s: FocusState)
        ensures
            s.panel == Panel::Mailboxes,
            s.prior == Panel::Mailboxes,
            !s.done,
            focus_inv(s),
    {
        FocusState { panel: Panel::Mailboxes, prior: Panel::Mailboxes, done: false }
    }

    /// Performs one transition, exactly as [`step_spec`] describes it.
    pub fn step(&mut self, cmd: Command, sel: Selection, row_unread: bool) -> (a: StepAction)
        requires
            focus_inv(*old(self)),
        ensures
            (*final(self), a) == step_spec(*old(self), cmd, sel, row_unread),
            focus_inv(*final(self)),
    {
        if self.done {
            return StepAction::Idle;
        }
        match cmd {
            Command::Quit => {
                self.done = true;
                StepAction::Terminate
            },
            Command::DismissOverlay => {
                if self.panel == Panel::HelpOverlay || self.panel == Panel::ErrorOverlay {
                    self.panel = self.prior;
                }
                StepAction::Idle
            },
            _ if self.panel == Panel::HelpOverlay || self.panel == Panel::ErrorOverlay => {
                StepAction::Idle
            },
            Command::Navigate(d) => StepAction::MoveCursor(d),
            Command::SwitchFocus => {
                self.panel = match self.panel {
                    Panel::Mailboxes => Panel::MailList,
                    Panel::MailList => Panel::Mailboxes,
                    Panel::MailBody => Panel::Mailboxes,
                    p => p,
                };
                StepAction::Idle
            },
            Command::ToggleHelp => {
                self.prior = self.panel;
                self.panel = Panel::HelpOverlay;
                StepAction::Idle
            },
            Command::SelectNode => {
                if self.panel == Panel::Mailboxes {
                    if sel.node_is_leaf {
                        self.prior = self.panel;
                        self.panel = Panel::MailList;
                        StepAction::LoadMailbox
                    } else {
                        StepAction::ToggleExpand
                    }
                } else {
                    StepAction::Idle
                }
            },
            Command::SelectRow => {
                if self.panel == Panel::MailList {
                    self.prior = self.panel;
                    self.panel = Panel::MailBody;
                    StepAction::OpenMessage(sel.row, row_unread)
                } else {
                    StepAction::Idle
                }
            },
        }
    }

    /// Routes an error to the error overlay.  The focus to restore on
    /// dismissal stays as it was remembered: the selection transitions
    /// record the panel that issued the command before moving focus, so
    /// after a failed selection the dismissal returns to the triggering
    /// panel, not to the panel the selection had moved to.
    pub fn fail(&mut self)
        requires
            focus_inv(*old(self)),
        ensures
            final(self).panel == Panel::ErrorOverlay,
            final(self).done == old(self).done,
            final(self).prior == old(self).prior,
            focus_inv(*final(self)),
    {
        self.panel = Panel::ErrorOverlay;
    }
}

/// The state the machine owns: the current mailbox tree, the loaded
/// index, and the focus.
pub struct Session {
    pub tree: MailboxNode,
    pub records: Vec<MailRecord>,
    pub focus: FocusState,
}

impl Session {
    /// A fresh session around a scanned tree: no index loaded, focus on
    /// the mailbox tree.
    pub fn new(tree: MailboxNode) -> (s: Session)
        ensures
            s.tree == tree,
            s.records@.len() == 0,
            s.focus == (FocusState { panel: Panel::Mailboxes, prior: Panel::Mailboxes, done: false }),
            focus_inv(s.focus),
    {
        Session { tree, records: Vec::new(), focus: FocusState::new() }
    }

    /// Performs one transition; whether the selected row must be marked
    /// read is decided from the session's own records.
    pub fn handle(&mut self, cmd: Command, sel: Selection) -> (a: StepAction)
        requires
            focus_inv(old(self).focus),
        ensures
            final(self).tree == old(self).tree,
            final(self).records == old(self).records,
            ({
                let row_unread = sel.row < old(self).records@.len() && records_view(
                    old(self).records@,
                )[sel.row as int].is_unread;
                (final(self).focus, a) == step_spec(old(self).focus, cmd, sel, row_unread)
            }),
            focus_inv(final(self).focus),
    {
        let row_unread = sel.row < self.records.len() && self.records[sel.row].is_unread;
        self.focus.step(cmd, sel, row_unread)
    }

    /// Replaces the tree after a rescan; everything else is untouched.
    pub fn set_tree(&mut self, tree: MailboxNode)
        ensures
            final(self).tree == tree,
            final(self).records == old(self).records,
            final(self).focus == old(self).focus,
    {
        self.tree = tree;
    }

    /// Replaces the index after a load; everything else is untouched.
    pub fn set_records(&mut self, records: Vec<MailRecord>)
        ensures
            final(self).records == records,
            final(self).tree == old(self).tree,
            final(self).focus == old(self).focus,
    {
        self.records = records;
    }
}

} // verus!
