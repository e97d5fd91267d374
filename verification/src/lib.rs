//! A terminal mail client library: maildir tree scanning, mail index
//! loading, message text extraction, and the focus state machine that
//! drives them.

pub mod activity;
pub mod chars;
pub mod config;
pub mod mailboxes;
pub mod mailbody;
pub mod maillist;
pub mod update;
pub mod utils;
