//! The workflow's local configuration, one section per configurable action.

use vstd::prelude::*;
use crate::actions::copy::CopyConfig;
use crate::actions::search_issues::SearchIssuesConfig;

verus! {

/// The local settings: what the issue searches ask for, and how copying to
/// the clipboard is done. Loading and storing the file is the caller's
/// business; a missing file means the defaults.
#[derive(Debug)]
pub struct Config {
    pub search_issues: SearchIssuesConfig,
    pub copy: CopyConfig,
}

impl Default for Config {
    /// Every section at its default.
    fn default() -> (c: Config)
        ensures
            c.search_issues.is_default(),
            c.copy.is_default(),
    {
        Config { search_issues: SearchIssuesConfig::default(), copy: CopyConfig::default() }
    }
}

} // verus!
