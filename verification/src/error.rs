//! What can go wrong while the catalog is resolved and a selection is made.

use crate::text::{decimal, decimal_text};
use vstd::prelude::*;
use vstd::string::StringExecFns;

verus! {

/// A failure of one run. None of them is retried.
#[derive(Debug, PartialEq, Eq)]
pub enum Failure {
    /// The local catalog root cannot be located.
    Resolution,
    /// A file could not be read or written; `path` names it.
    Io { path: String },
    /// The remote listing answered with a status that is no success.
    Network { status: u16 },
    /// The remote listing or the lock file is no well-formed document.
    Parse,
    /// A pattern of the catalog was not accepted by the expression engine.
    Pattern,
    /// The selector program is missing; `executable` names it.
    SelectorUnavailable { executable: String },
    /// The selector gave back a line that is no candidate's label.
    SelectionIntegrity { line: String },
}

impl Failure {
    /// A description of the failure for the user.
    pub fn message(&self) -> (text: String)
        ensures
            self matches Failure::Io { path } ==> text@ == "could not access "@ + path@,
            self matches Failure::SelectorUnavailable { executable } ==> text@ == "could not find "@
                + executable@ + ", is it installed?"@,
            self matches Failure::SelectionIntegrity { line } ==> text@
                == "the selector returned an unknown entry: "@ + line@,
            self is Resolution ==> text@ == "could not locate the local catalog"@,
            self matches Failure::Network { status } ==> text@
                == "the remote listing answered with status "@ + decimal(status as nat),
            self is Parse ==> text@ == "malformed document"@,
            self is Pattern ==> text@ == "invalid pattern"@,
    {
        match self {
            Failure::Resolution => String::from_str("could not locate the local catalog"),
            Failure::Io { path } => {
                let mut text = String::from_str("could not access ");
                text.append(path.as_str());
                text
            },
            Failure::Network { status } => {
                let mut text = String::from_str("the remote listing answered with status ");
                let code: u64 = *status as u64;
                text.append(decimal_text(code).as_str());
                text
            },
            Failure::Parse => String::from_str("malformed document"),
            Failure::Pattern => String::from_str("invalid pattern"),
            Failure::SelectorUnavailable { executable } => {
                let mut text = String::from_str("could not find ");
                text.append(executable.as_str());
                text.append(", is it installed?");
                text
            },
            Failure::SelectionIntegrity { line } => {
                let mut text = String::from_str("the selector returned an unknown entry: ");
                text.append(line.as_str());
                text
            },
        }
    }
}

} // verus!
