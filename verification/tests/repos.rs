use alfred_github::actions::repos::{
    combine, combined_cache_is_fresh, is_eligible, merge_owned, plan_owned_fetch, synthesize,
    OwnedFetchPlan, RepositoryRecord, COMBINED_TTL_SECS, STARRED_TTL_SECS,
    starred_cache_is_fresh,
};

fn record(full_name: &str, owner: &str, archived: bool) -> RepositoryRecord {
    RepositoryRecord {
        full_name: Some(full_name.to_string()),
        name: full_name.split('/').next_back().unwrap_or("").to_string(),
        owner: Some(owner.to_string()),
        html_url: Some(format!("https://github.com/{full_name}")),
        description: None,
        archived: Some(archived),
    }
}

fn names(records: &[RepositoryRecord]) -> Vec<String> {
    records.iter().map(|r| r.full_name.clone().unwrap()).collect()
}

#[test]
fn owned_wins_over_starred_on_the_same_full_name() {
    let mut owned_copy = record("octo/dup", "octo", false);
    owned_copy.description = Some("from owned".to_string());
    let mut starred_copy = record("octo/dup", "octo", false);
    starred_copy.description = Some("from starred".to_string());

    let out = combine(
        vec![owned_copy, record("octo/solo", "octo", false)],
        vec![starred_copy, record("other/star", "other", false)],
    );
    let dups: Vec<_> = out
        .iter()
        .filter(|r| r.full_name.as_deref() == Some("octo/dup"))
        .collect();
    assert_eq!(dups.len(), 1);
    assert_eq!(dups[0].description.as_deref(), Some("from owned"));
}

#[test]
fn archived_and_nameless_records_never_appear() {
    let mut nameless = record("x/y", "x", false);
    nameless.full_name = None;
    let mut empty_name = record("", "x", false);
    empty_name.full_name = Some(String::new());
    let mut unknown_flag = record("x/unknown", "x", false);
    unknown_flag.archived = None;

    let out = combine(
        vec![record("a/archived", "a", true), nameless, record("a/live", "a", false)],
        vec![empty_name, unknown_flag, record("b/star", "b", true)],
    );
    assert_eq!(names(&out), vec!["a/live".to_string()]);
}

#[test]
fn output_is_sorted_and_shuffling_does_not_change_it() {
    let a = record("mid/m", "mid", false);
    let b = record("aaa/a", "aaa", false);
    let c = record("zzz/z", "zzz", false);
    let d = record("bbb/b", "bbb", false);

    let first = combine(vec![a.clone(), b.clone()], vec![c.clone(), d.clone()]);
    let second = combine(vec![d, c], vec![b, a]);

    assert_eq!(
        names(&first),
        vec!["aaa/a".to_string(), "bbb/b".to_string(), "mid/m".to_string(), "zzz/z".to_string()]
    );
    assert_eq!(names(&first), names(&second));
}

#[test]
fn merge_owned_keeps_the_snapshot_copy_and_adds_new_names() {
    let mut old_copy = record("octo/kept", "octo", false);
    old_copy.description = Some("old fields".to_string());
    let mut new_copy = record("octo/kept", "octo", false);
    new_copy.description = Some("refreshed fields".to_string());

    let merged = merge_owned(
        vec![old_copy, record("octo/stale", "octo", true)],
        vec![new_copy, record("octo/new", "octo", false)],
    );
    assert_eq!(names(&merged), vec!["octo/kept".to_string(), "octo/new".to_string()]);
    assert_eq!(merged[0].description.as_deref(), Some("old fields"));
}

#[test]
fn starred_ttl_boundary() {
    assert_eq!(STARRED_TTL_SECS, 3600);
    let now = 1_700_000_000;
    assert!(starred_cache_is_fresh(now, now - 3599, STARRED_TTL_SECS, false));
    assert!(!starred_cache_is_fresh(now, now - 3600, STARRED_TTL_SECS, false));
    assert!(!starred_cache_is_fresh(now, now - 3601, STARRED_TTL_SECS, false));
    assert!(!starred_cache_is_fresh(now, now - 10, STARRED_TTL_SECS, true));
    // a watermark from the future counts as fresh
    assert!(starred_cache_is_fresh(now, now + 50, STARRED_TTL_SECS, false));
}

#[test]
fn combined_ttl_boundary() {
    assert_eq!(COMBINED_TTL_SECS, 86400);
    assert!(combined_cache_is_fresh(86399, false));
    assert!(!combined_cache_is_fresh(86400, false));
    assert!(!combined_cache_is_fresh(0, true));
}

#[test]
fn owned_fetch_plan() {
    assert_eq!(plan_owned_fetch(Some(12), false), OwnedFetchPlan::Incremental { watermark: 12 });
    assert_eq!(plan_owned_fetch(Some(12), true), OwnedFetchPlan::Full);
    assert_eq!(plan_owned_fetch(None, false), OwnedFetchPlan::Full);
    assert_eq!(plan_owned_fetch(None, true), OwnedFetchPlan::Full);
}

#[test]
fn eligibility_needs_a_name_and_an_explicit_flag() {
    assert!(is_eligible(&record("a/b", "a", false)));
    assert!(!is_eligible(&record("a/b", "a", true)));
    let mut r = record("a/b", "a", false);
    r.archived = None;
    assert!(!is_eligible(&r));
    r = record("a/b", "a", false);
    r.full_name = Some(String::new());
    assert!(!is_eligible(&r));
    r.full_name = None;
    assert!(!is_eligible(&r));
}

#[test]
fn synthesized_entries_carry_the_record_coordinates() {
    let mut r = record("octo/repo", "octo", false);
    r.description = Some("a fine repository".to_string());
    let items = synthesize(&vec![r], "/cache");
    assert_eq!(items.items.len(), 1);
    let json = items.to_json();
    assert_eq!(
        json,
        r#"{"items":[{"title":"octo/repo","subtitle":"a fine repository","uid":"https://github.com/octo/repo","arg":"https://github.com/octo/repo","match":"octo/repo octo repo","icon":{"path":"/cache/octo.png"},"variables":{"full_name":"octo/repo","html_url":"https://github.com/octo/repo","name":"repo","owner":"octo"},"mods":{"alt":{"arg":"https://github.com/octo/repo/wiki","subtitle":"View GitHub Wiki"},"cmd":{"subtitle":"View Pull Requests","variables":{"action":"pulls","full_name":"octo/repo","html_url":"https://github.com/octo/repo"}}}}]}"#
    );
}

#[test]
fn synthesis_skips_records_missing_required_fields() {
    let mut no_url = record("a/nourl", "a", false);
    no_url.html_url = None;
    let mut no_owner = record("a/noowner", "a", false);
    no_owner.owner = None;
    let items = synthesize(&vec![no_url, record("a/ok", "a", false), no_owner], "/c");
    assert_eq!(items.items.len(), 1);
    assert_eq!(items.items[0].title, "a/ok");
}

#[test]
fn synthesized_icon_falls_back_for_an_empty_owner() {
    let mut r = record("a/b", "", false);
    r.owner = Some(String::new());
    let items = synthesize(&vec![r], "/cache");
    assert_eq!(items.items.len(), 1);
    assert!(items.items[0].to_json().contains(r#""icon":{"path":"/cache/octocat.png"}"#));
}
