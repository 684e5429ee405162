use alfred_github::actions::copy::{build_cmdline, CopyConfig};
use alfred_github::actions::pulls::{pull_to_item, PullRecord};
use alfred_github::actions::search_issues::{
    extract_full_name, issue_to_item, IssueRecord, SearchIssuesConfig,
};
use alfred_github::args::{Action, Args, ConfigMethod, SearchQuery};
use alfred_github::config::Config;
use alfred_github::hub_compat::HubConfig;
use alfred_github::{u64_to_dec_string, FullName};

fn argv(args: &[&str]) -> Vec<String> {
    let mut v = vec!["prog".to_string()];
    v.extend(args.iter().map(|s| s.to_string()));
    v
}

#[test]
fn args_parse_every_subcommand() {
    assert!(matches!(Args::new(argv(&["install"])).unwrap().action, Action::Install));
    assert!(matches!(Args::new(argv(&["refresh"])).unwrap().action, Action::Refresh));
    assert!(matches!(Args::new(argv(&["copy"])).unwrap().action, Action::Copy));
    assert!(matches!(
        Args::new(argv(&["config", "open"])).unwrap().action,
        Action::Config { method: ConfigMethod::Open }
    ));
    assert!(matches!(
        Args::new(argv(&["config", "edit"])).unwrap().action,
        Action::Config { method: ConfigMethod::Edit }
    ));
    assert!(matches!(
        Args::new(argv(&["repos"])).unwrap().action,
        Action::Repos { no_cache: false }
    ));
    assert!(matches!(
        Args::new(argv(&["repos", "--no-cache"])).unwrap().action,
        Action::Repos { no_cache: true }
    ));
    match Args::new(argv(&["pulls", "octo/repo"])).unwrap().action {
        Action::Pulls { repo } => {
            assert_eq!(repo.owner, "octo");
            assert_eq!(repo.name, "repo");
        }
        other => panic!("parsed {other:?}"),
    }
    assert!(matches!(
        Args::new(argv(&["search-issues", "reviews"])).unwrap().action,
        Action::SearchIssues { query: SearchQuery::Reviews }
    ));
    assert!(matches!(
        Args::new(argv(&["search-issues", "pulls"])).unwrap().action,
        Action::SearchIssues { query: SearchQuery::Pulls }
    ));
    match Args::new(argv(&["search-issues", "custom", "is:open"])).unwrap().action {
        Action::SearchIssues { query: SearchQuery::Custom { query } } => {
            assert_eq!(query, "is:open");
        }
        other => panic!("parsed {other:?}"),
    }
}

#[test]
fn args_reject_what_they_do_not_know() {
    assert!(Args::new(argv(&[])).is_err());
    assert!(Args::new(argv(&["frobnicate"])).is_err());
    assert!(Args::new(argv(&["install", "extra"])).is_err());
    assert!(Args::new(argv(&["config"])).is_err());
    assert!(Args::new(argv(&["config", "else"])).is_err());
    assert!(Args::new(argv(&["repos", "--what"])).is_err());
    assert!(Args::new(argv(&["pulls"])).is_err());
    assert!(Args::new(argv(&["pulls", "no-slash"])).is_err());
    assert!(Args::new(argv(&["search-issues", "custom"])).is_err());
}

#[test]
fn full_name_splits_at_the_first_slash() {
    let fnm = FullName::from_str("owner/name").unwrap();
    assert_eq!(fnm.owner, "owner");
    assert_eq!(fnm.name, "name");
    assert_eq!(fnm.to_display_string(), "owner/name");

    let nested = FullName::from_str("a/b/c").unwrap();
    assert_eq!(nested.owner, "a");
    assert_eq!(nested.name, "b/c");

    assert!(FullName::from_str("plain").is_err());
}

#[test]
fn default_copy_rules_match_by_wildcard() {
    let config = CopyConfig::default();
    let chrome = config.select_rule("com.google.Chrome").unwrap();
    assert_eq!(chrome.focusedapp, "com.google.Chrome");
    assert!(chrome.mdcopy.starts_with("-f markdown"));
    let unknown = config.select_rule("org.mozilla.firefox").unwrap();
    assert_eq!(unknown.focusedapp, "*");
    assert!(unknown.mdcopy.starts_with("-f text"));
}

#[test]
fn rule_selection_takes_the_first_match() {
    let mut config = CopyConfig::default();
    config.rules.truncate(3);  // drop the catch-all
    assert!(config.select_rule("org.mozilla.firefox").is_none());
    assert_eq!(build_cmdline("-f text"), "$mdcopy -f text");
}

#[test]
fn search_query_strings() {
    let config = SearchIssuesConfig::default();
    assert_eq!(
        config.query_string(&SearchQuery::Reviews),
        "is:open is:pr user-review-requested:@me archived:false"
    );
    assert_eq!(
        config.query_string(&SearchQuery::Pulls),
        "is:open is:pr archived:false author:@me"
    );
    assert_eq!(
        config.query_string(&SearchQuery::Custom { query: "label:bug".to_string() }),
        "label:bug"
    );
}

#[test]
fn config_default_has_both_sections() {
    let config = Config::default();
    assert_eq!(config.copy.rules.len(), 4);
    assert_eq!(config.search_issues.pulls, "is:open is:pr archived:false author:@me");
}

#[test]
fn extract_full_name_reads_the_page_address() {
    assert_eq!(
        extract_full_name("https://github.com/owner/repo/pull/17"),
        Some("owner/repo".to_string())
    );
    assert_eq!(
        extract_full_name("https://github.com/owner/repo"),
        Some("owner/repo".to_string())
    );
    assert_eq!(extract_full_name("https://github.com/owner"), None);
    assert_eq!(extract_full_name("https://github.com//repo"), None);
    assert_eq!(extract_full_name("https://github.com/a//b"), None);
    assert_eq!(extract_full_name("https://example.com/owner/repo"), None);
    assert_eq!(extract_full_name("short"), None);
}

#[test]
fn issues_become_entries_with_their_coordinates() {
    let issue = IssueRecord {
        html_url: "https://github.com/octo/repo/issues/41".to_string(),
        number: 41,
        title: "A bug".to_string(),
        user_login: "reporter".to_string(),
        created_at: "2024-01-01T00:00:00Z".to_string(),
        updated_at: "2024-01-02T00:00:00Z".to_string(),
    };
    let item = issue_to_item(&issue, &SearchQuery::Reviews, "/c").unwrap();
    assert_eq!(
        item.to_json(),
        r#"{"title":"A bug","subtitle":"octo/repo#41 opened by reporter","arg":"https://github.com/octo/repo/issues/41","icon":{"path":"/c/reporter.png"},"variables":{"created_at":"2024-01-01T00:00:00Z","full_name":"octo/repo#41","html_url":"https://github.com/octo/repo/issues/41","owner":"reporter","updated_at":"2024-01-02T00:00:00Z"}}"#
    );

    // in the own-pull-requests search the repository owner keys the icon
    let own = issue_to_item(&issue, &SearchQuery::Pulls, "/c").unwrap();
    assert!(own.to_json().contains(r#""icon":{"path":"/c/octo.png"}"#));
    assert!(own.to_json().contains(r#""owner":"octo""#));

    let odd = IssueRecord { html_url: "https://elsewhere.test/x".to_string(), ..issue };
    assert!(issue_to_item(&odd, &SearchQuery::Reviews, "/c").is_none());
}

fn sample_pull() -> PullRecord {
    PullRecord {
        html_url: Some("https://github.com/octo/repo/pull/7".to_string()),
        title: Some("Fix things".to_string()),
        number: 7,
        user_login: Some("author".to_string()),
        base_full_name: Some("octo/repo".to_string()),
        created_at: Some("2024-03-04T05:06:07Z".to_string()),
        updated_at: None,
    }
}

#[test]
fn pulls_become_entries_and_missing_fields_skip() {
    let pull = sample_pull();
    let item = pull_to_item(&pull, "/c").unwrap();
    assert_eq!(
        item.to_json(),
        r##"{"title":"Fix things","subtitle":"#7 opened by author","arg":"https://github.com/octo/repo/pull/7","icon":{"path":"/c/author.png"},"variables":{"created_at":"2024-03-04T05:06:07Z","full_name":"octo/repo#7","updated_at":null}}"##
    );

    let anonymous = PullRecord { user_login: None, ..sample_pull() };
    let item = pull_to_item(&anonymous, "/c").unwrap();
    assert!(item.to_json().contains(r##""subtitle":"#7 opened by ""##));
    assert!(item.to_json().contains(r#""icon":{"path":"/c/octocat.png"}"#));

    let no_title = PullRecord { title: None, ..sample_pull() };
    assert!(pull_to_item(&no_title, "/c").is_none());
    let no_base = PullRecord { base_full_name: None, ..sample_pull() };
    assert!(pull_to_item(&no_base, "/c").is_none());
    let no_url = PullRecord { html_url: None, ..sample_pull() };
    assert!(pull_to_item(&no_url, "/c").is_none());
}

#[test]
fn hub_config_takes_the_last_entry() {
    let entries = vec![
        HubConfig {
            user: "first".to_string(),
            oauth_token: "SECRET-REDACTED".to_string(),
            protocol: None,
        },
        HubConfig {
            user: "second".to_string(),
            oauth_token: "SECRET-REDACTED".to_string(),
            protocol: Some("https".to_string()),
        },
    ];
    let picked = HubConfig::select(entries).unwrap();
    assert_eq!(picked.user, "second");
    assert!(HubConfig::select(vec![]).is_none());
}

#[test]
fn decimal_rendering_is_exact() {
    assert_eq!(u64_to_dec_string(0), "0");
    assert_eq!(u64_to_dec_string(7), "7");
    assert_eq!(u64_to_dec_string(10), "10");
    assert_eq!(u64_to_dec_string(90210), "90210");
    assert_eq!(u64_to_dec_string(u64::MAX), "18446744073709551615");
}
