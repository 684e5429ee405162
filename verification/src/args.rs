//! The command-line surface: which subcommand was asked for, parsed from the
//! raw argument strings.

use vstd::prelude::*;
use vstd::string::*;
use crate::FullName;
use crate::parse_full_name;
use crate::str_eq;

verus! {

/// How the configuration is opened for editing.
#[derive(Debug, PartialEq, Eq, Structural, Clone, Copy)]
pub enum ConfigMethod {
    /// In the desktop's default editor.
    Open,
    /// In the terminal editor the environment names.
    Edit,
}

/// Which search the issue search runs.
#[derive(Debug, Clone)]
pub enum SearchQuery {
    Reviews,
    Pulls,
    Custom { query: String },
}

/// The mathematical content of a search query choice.
#[verifier::ext_equal]
pub ghost enum SearchQueryView {
    Reviews,
    Pulls,
    Custom { query: Seq<char> },
}

impl View for SearchQuery {
    type V = SearchQueryView;

    open spec fn view(&self) -> SearchQueryView {
        match self {
            SearchQuery::Reviews => SearchQueryView::Reviews,
            SearchQuery::Pulls => SearchQueryView::Pulls,
            SearchQuery::Custom { query } => SearchQueryView::Custom { query: query@ },
        }
    }
}

/// The subcommands the launcher integration offers.
#[derive(Debug)]
pub enum Action {
    /// Install the workflow.
    Install,
    /// Configure local settings.
    Config { method: ConfigMethod },
    /// Refresh the cache.
    Refresh,
    /// List the current user's repositories.
    Repos { no_cache: bool },
    /// List pull requests of one repository.
    Pulls { repo: FullName },
    /// Search issues and pull requests.
    SearchIssues { query: SearchQuery },
    /// Copy repository coordinates to the clipboard.
    Copy,
}

/// The mathematical content of a parsed action.
#[verifier::ext_equal]
pub ghost enum ActionView {
    Install,
    Config { method: ConfigMethod },
    Refresh,
    Repos { no_cache: bool },
    Pulls { owner: Seq<char>, name: Seq<char> },
    SearchIssues { query: SearchQueryView },
    Copy,
}

impl View for Action {
    type V = ActionView;

    open spec fn view(&self) -> ActionView {
        match self {
            Action::Install => ActionView::Install,
            Action::Config { method } => ActionView::Config { method: *method },
            Action::Refresh => ActionView::Refresh,
            Action::Repos { no_cache } => ActionView::Repos { no_cache: *no_cache },
            Action::Pulls { repo } => ActionView::Pulls { owner: repo.owner@, name: repo.name@ },
            Action::SearchIssues { query } => ActionView::SearchIssues { query: query@ },
            Action::Copy => ActionView::Copy,
        }
    }
}

/// The parsed command line.
#[derive(Debug)]
pub struct Args {
    pub action: Action,
}

/// What a raw argument list means: the first argument is the program's own
/// name; the second names the subcommand; the rest belong to it. Anything
/// else is rejected.
pub open spec fn parse_args_spec(argv: Seq<Seq<char>>) -> Option<ActionView> {
    if argv.len() < 2 {
        None
    } else {
        let cmd = argv[1];
        if cmd == "install"@ {
            if argv.len() == 2 {
                Some(ActionView::Install)
            } else {
                None
            }
        } else if cmd == "refresh"@ {
            if argv.len() == 2 {
                Some(ActionView::Refresh)
            } else {
                None
            }
        } else if cmd == "copy"@ {
            if argv.len() == 2 {
                Some(ActionView::Copy)
            } else {
                None
            }
        } else if cmd == "config"@ {
            if argv.len() == 3 && argv[2] == "open"@ {
                Some(ActionView::Config { method: ConfigMethod::Open })
            } else if argv.len() == 3 && argv[2] == "edit"@ {
                Some(ActionView::Config { method: ConfigMethod::Edit })
            } else {
                None
            }
        } else if cmd == "repos"@ {
            if argv.len() == 2 {
                Some(ActionView::Repos { no_cache: false })
            } else if argv.len() == 3 && argv[2] == "--no-cache"@ {
                Some(ActionView::Repos { no_cache: true })
            } else {
                None
            }
        } else if cmd == "pulls"@ {
            if argv.len() == 3 {
                match parse_full_name(argv[2]) {
                    Some((owner, name)) => Some(ActionView::Pulls { owner, name }),
                    None => None,
                }
            } else {
                None
            }
        } else if cmd == "search-issues"@ {
            if argv.len() == 3 && argv[2] == "reviews"@ {
                Some(ActionView::SearchIssues { query: SearchQueryView::Reviews })
            } else if argv.len() == 3 && argv[2] == "pulls"@ {
                Some(ActionView::SearchIssues { query: SearchQueryView::Pulls })
            } else if argv.len() == 4 && argv[2] == "custom"@ {
                Some(ActionView::SearchIssues { query: SearchQueryView::Custom { query: argv[3] } })
            } else {
                None
            }
        } else {
            None
        }
    }
}

impl Args {
    /// Parses the raw argument strings, program name first. A recognised
    /// subcommand with well-formed arguments parses to its action; anything
    /// else is an error.
    pub fn new(argv: Vec<String>) -> (r: Result<Args, String>)
        ensures
            match r {
                Ok(args) => parse_args_spec(argv.deep_view()) == Some(args.action@),
                Err(_) => parse_args_spec(argv.deep_view()) is None,
            },
    {
        let usage = "usage: install | config (open|edit) | refresh | repos [--no-cache] | pulls <owner/name> | search-issues (reviews|pulls|custom <query>) | copy";
        if argv.len() < 2 {
            return Err(String::from_str(usage));
        }
        let cmd = argv[1].as_str();
        if str_eq(cmd, "install") {
            if argv.len() == 2 {
                Ok(Args { action: Action::Install })
            } else {
                Err(String::from_str(usage))
            }
        } else if str_eq(cmd, "refresh") {
            if argv.len() == 2 {
                Ok(Args { action: Action::Refresh })
            } else {
                Err(String::from_str(usage))
            }
        } else if str_eq(cmd, "copy") {
            if argv.len() == 2 {
                Ok(Args { action: Action::Copy })
            } else {
                Err(String::from_str(usage))
            }
        } else if str_eq(cmd, "config") {
            if argv.len() == 3 && str_eq(argv[2].as_str(), "open") {
                Ok(Args { action: Action::Config { method: ConfigMethod::Open } })
            } else if argv.len() == 3 && str_eq(argv[2].as_str(), "edit") {
                Ok(Args { action: Action::Config { method: ConfigMethod::Edit } })
            } else {
                Err(String::from_str(usage))
            }
        } else if str_eq(cmd, "repos") {
            if argv.len() == 2 {
                Ok(Args { action: Action::Repos { no_cache: false } })
            } else if argv.len() == 3 && str_eq(argv[2].as_str(), "--no-cache") {
                Ok(Args { action: Action::Repos { no_cache: true } })
            } else {
                Err(String::from_str(usage))
            }
        } else if str_eq(cmd, "pulls") {
            if argv.len() == 3 {
                match FullName::from_str(argv[2].as_str()) {
                    Ok(repo) => Ok(Args { action: Action::Pulls { repo } }),
                    Err(e) => Err(e),
                }
            } else {
                Err(String::from_str(usage))
            }
        } else if str_eq(cmd, "search-issues") {
            if argv.len() == 3 && str_eq(argv[2].as_str(), "reviews") {
                Ok(Args { action: Action::SearchIssues { query: SearchQuery::Reviews } })
            } else if argv.len() == 3 && str_eq(argv[2].as_str(), "pulls") {
                Ok(Args { action: Action::SearchIssues { query: SearchQuery::Pulls } })
            } else if argv.len() == 4 && str_eq(argv[2].as_str(), "custom") {
                let query = argv[3].clone();
                Ok(Args { action: Action::SearchIssues { query: SearchQuery::Custom { query } } })
            } else {
                Err(String::from_str(usage))
            }
        } else {
            Err(String::from_str(usage))
        }
    }
}

} // verus!
