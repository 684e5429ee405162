//! The credentials format of the `hub` tool: per-host lists of accounts,
//! of which the last one wins.

use vstd::prelude::*;

verus! {

/// One account entry of the hub credentials file.
#[derive(Debug)]
pub struct HubConfig {
    pub user: String,
    pub oauth_token: String,
    pub protocol: Option<String>,
}

/// The mathematical content of an account entry.
#[verifier::ext_equal]
pub ghost struct HubConfigView {
    pub user: Seq<char>,
    pub oauth_token: Seq<char>,
    pub protocol: Option<Seq<char>>,
}

impl View for HubConfig {
    type V = HubConfigView;

    open spec fn view(&self) -> HubConfigView {
        HubConfigView {
            user: self.user@,
            oauth_token: self.oauth_token@,
            protocol: self.protocol.deep_view(),
        }
    }
}

impl DeepView for HubConfig {
    type V = HubConfigView;

    open spec fn deep_view(&self) -> HubConfigView {
        self.view()
    }
}

impl HubConfig {
    /// Of a host's account entries, the one taken: the last, or nothing when
    /// the host has none.
    pub fn select(entries: Vec<HubConfig>) -> (r: Option<HubConfig>)
        ensures
            r.deep_view() == (if entries.deep_view().len() == 0 {
                None
            } else {
                Some(entries.deep_view().last())
            }),
    {
        let mut entries = entries;
        entries.pop()
    }
}

} // verus!
