use termail::activity::{ExitReason, Loop};
use termail::config::{TermailConfig, MAIL_DIR};

#[test]
fn default_config_points_at_conventional_mail_dir() {
    let c = TermailConfig::default();
    assert_eq!(c.mail_dir, "~/.local/share/mail");
    assert_eq!(c.mail_dir, MAIL_DIR);
    assert!(c.mail_dir_from_cli.is_none());
}

#[test]
fn cli_directory_takes_precedence() {
    let mut c = TermailConfig::default();
    assert_eq!(c.effective_mail_dir(), "~/.local/share/mail");
    c.mail_dir_from_cli = Some("/tmp/elsewhere".to_string());
    assert_eq!(c.effective_mail_dir(), "/tmp/elsewhere");
}

#[test]
fn config_clone_keeps_both_directories() {
    let mut c = TermailConfig::default();
    c.mail_dir = "/var/mail".to_string();
    c.mail_dir_from_cli = Some("/cli/mail".to_string());
    let d = c.clone();
    assert_eq!(d.mail_dir, "/var/mail");
    assert_eq!(d.mail_dir_from_cli.as_deref(), Some("/cli/mail"));
}

#[test]
fn loop_modes_have_their_display_text() {
    assert_eq!(Loop::Single.display_text(), "single loop");
    assert_eq!(Loop::Playlist.display_text(), "loop");
    assert_eq!(Loop::Queue.display_text(), "queue");
}

#[test]
fn exit_reason_quit_is_itself() {
    assert_eq!(ExitReason::Quit, ExitReason::Quit);
}
