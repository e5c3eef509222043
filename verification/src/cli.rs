//! The command line and what the program does first with it.

use vstd::prelude::*;

use crate::text::{chars_of, is_blank, trim};

verus! {

/// The command line: an optional demand or search text and three switches.
#[derive(Debug, Clone, PartialEq, Eq)]
pub struct Cli {
    /// Natural language demand or search keyword.
    pub query: Option<String>,
    /// Show a plain text list instead of the interactive browser.
    pub text: bool,
    /// Rebuild the index from the transcripts from scratch.
    pub reindex: bool,
    /// Show the version.
    pub version: bool,
}

/// What the program does once the index is ready.
#[derive(Debug, Clone, PartialEq, Eq)]
pub enum MainAction {
    /// Print the version and stop.
    ShowVersion,
    /// Look the demand up and offer the best match (or ask the cloud).
    Lookup(String),
    /// Open the browser on the latest solutions.
    Browse,
}

/// The steps of a run: whether to empty the index, whether to scan the
/// transcripts, and what to do then.
#[derive(Debug, Clone, PartialEq, Eq)]
pub struct StartupPlan {
    pub clear_index: bool,
    pub scan: bool,
    pub action: MainAction,
}

/// The steps of a run for a command line, given whether the index is empty:
/// the transcripts are scanned when the index is empty or a re-index is
/// asked for (which empties it first); then the version is shown if asked,
/// else a non-blank demand is looked up, else the browser opens.
pub fn startup_plan(cli: &Cli, store_empty: bool) -> (r: StartupPlan)
    ensures
        r.clear_index == cli.reindex,
        r.scan == (store_empty || cli.reindex),
        cli.version ==> r.action == MainAction::ShowVersion,
        !cli.version ==> match cli.query {
            Some(q) => if trim(q@).len() > 0 {
                r.action matches MainAction::Lookup(s) && s@ == q@
            } else {
                r.action == MainAction::Browse
            },
            None => r.action == MainAction::Browse,
        },
{
    let action = if cli.version {
        MainAction::ShowVersion
    } else {
        match &cli.query {
            Some(q) => if is_blank(&chars_of(q.as_str())) {
                MainAction::Browse
            } else {
                MainAction::Lookup(q.clone())
            },
            None => MainAction::Browse,
        }
    };
    StartupPlan { clear_index: cli.reindex, scan: store_empty || cli.reindex, action }
}

} // verus!
