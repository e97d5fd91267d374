//! The configuration the client starts from: where the mail store lives,
//! and an optional override given on the command line.  Reading and
//! writing the configuration file is the caller's business; the library
//! only holds the values.

use vstd::prelude::*;

verus! {

use vstd::string::StringExecFns;

/// The default mail store location; the caller expands the tilde.
pub const MAIL_DIR: &'static str = "~/.local/share/mail";

/// The configuration: the mail store directory, and the directory given
/// on the command line, which takes precedence when present.
pub struct TermailConfig {
    pub mail_dir: String,
    pub mail_dir_from_cli: Option<String>,
}

impl Clone for TermailConfig {
    /// A clone holds the same directories.
    fn clone(&self) -> (c: Self)
        ensures
            c.mail_dir@ == self.mail_dir@,
            match self.mail_dir_from_cli {
                Some(ref d) => c.mail_dir_from_cli matches Some(e) && e@ == d@,
                None => c.mail_dir_from_cli is None,
            },
    {
        TermailConfig {
            mail_dir: self.mail_dir.clone(),
            mail_dir_from_cli: match &self.mail_dir_from_cli {
                Some(d) => Some(d.clone()),
                None => None,
            },
        }
    }
}

impl Default for TermailConfig {
    /// The default configuration: the conventional mail directory, no
    /// command-line override.
    fn default() -> (c: Self)
        ensures
            c.mail_dir@ == "~/.local/share/mail"@,
            c.mail_dir_from_cli is None,
    {
        TermailConfig { mail_dir: String::from_str(MAIL_DIR), mail_dir_from_cli: None }
    }
}

impl TermailConfig {
    /// The directory the mailbox scan starts from: the command-line
    /// override when one was given, the configured directory otherwise.
    pub fn effective_mail_dir(&self) -> (d: &String)
        ensures
            d@ == match self.mail_dir_from_cli {
                Some(ref c) => c@,
                None => self.mail_dir@,
            },
    {
        match &self.mail_dir_from_cli {
            Some(c) => c,
            None => &self.mail_dir,
        }
    }
}

} // verus!
