//! The outcome of an install, copy or deploy action: what was deployed,
//! what was skipped and why, and the errors met.

use vstd::prelude::*;

verus! {

/// One deployed file.
#[derive(Debug, Clone)]
pub struct DeployedFile {
    pub source: String,
    pub target: String,
    pub provider: String,
}

/// Why a file was not deployed.
#[derive(Debug, Clone, Copy, PartialEq, Eq, Structural)]
pub enum SkipReason {
    UserModified,
    TargetMismatch,
    Unchanged,
}

/// One skipped file.
#[derive(Debug, Clone)]
pub struct SkippedFile {
    pub target: String,
    pub provider: String,
    pub reason: SkipReason,
}

/// The outcome of an action.
#[derive(Debug, Clone)]
pub struct ActionResult {
    pub installed: Vec<DeployedFile>,
    pub skipped: Vec<SkippedFile>,
    pub errors: Vec<String>,
}

impl ActionResult {
    /// An empty outcome.
    pub fn new() -> (r: ActionResult)
        ensures
            r.installed@.len() == 0,
            r.skipped@.len() == 0,
            r.errors@.len() == 0,
    {
        ActionResult { installed: Vec::new(), skipped: Vec::new(), errors: Vec::new() }
    }

    /// Whether any error was recorded.
    pub fn has_errors(&self) -> (r: bool)
        ensures
            r == (self.errors@.len() > 0),
    {
        !self.errors.is_empty()
    }

    /// Appends another outcome's records after this one's.
    pub fn merge(&mut self, other: ActionResult)
        ensures
            final(self).installed@ == old(self).installed@ + other.installed@,
            final(self).skipped@ == old(self).skipped@ + other.skipped@,
            final(self).errors@ == old(self).errors@ + other.errors@,
    {
        let mut other = other;
        self.installed.append(&mut other.installed);
        self.skipped.append(&mut other.skipped);
        self.errors.append(&mut other.errors);
    }
}

} // verus!
