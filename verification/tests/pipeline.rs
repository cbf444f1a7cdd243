//! The aggregator and the refresh driver: partial failure, concurrent-style
//! writes, removal, and the end-to-end refresh scenarios.

use github_status::pulls::decode_pulls;
use github_status::pulls::PullRequest;
use github_status::refresh::apply_fetch_outcome;
use github_status::refresh::plan_refresh;
use github_status::refresh::FetchOutcome;
use github_status::refresh::RefreshAction;
use github_status::refresh::State;
use github_status::refresh::TrackedRepos;
use github_status::github::GitHubApi;
use github_status::store::ResultMap;
use github_status::teams::TeamPages;

fn pulls_payload(numbers: &[i32]) -> String {
    let mut body = String::from("[");
    for (i, n) in numbers.iter().enumerate() {
        if i > 0 {
            body.push(',');
        }
        body.push_str(&format!("{{\"id\": {}, \"number\": {}}}", 1000 + n, n));
    }
    body.push(']');
    body
}

#[test]
fn transport_failure_leaves_the_previous_value_in_place() {
    let mut agg: ResultMap<Vec<PullRequest>> = ResultMap::new();
    let first = decode_pulls(&pulls_payload(&[1, 2])).unwrap();
    apply_fetch_outcome(&mut agg, "repo-a".to_string(), FetchOutcome::Success(first));
    // the next refresh fails on the wire; the stored value must not regress
    apply_fetch_outcome(&mut agg, "repo-a".to_string(), FetchOutcome::TransportError);
    let held = agg.get(&"repo-a".to_string()).unwrap();
    assert_eq!(held.len(), 2);
    assert_eq!(held[0].number, 1);
    // a decode failure is swallowed the same way
    apply_fetch_outcome(&mut agg, "repo-a".to_string(), FetchOutcome::DecodeError);
    assert_eq!(agg.get(&"repo-a".to_string()).unwrap().len(), 2);
}

#[test]
fn interleaved_upserts_to_distinct_keys_keep_both() {
    let mut agg: ResultMap<Vec<PullRequest>> = ResultMap::new();
    let for_a = decode_pulls(&pulls_payload(&[1])).unwrap();
    let for_b = decode_pulls(&pulls_payload(&[7, 8, 9])).unwrap();
    agg.upsert("repo-a".to_string(), for_a);
    agg.upsert("repo-b".to_string(), for_b);
    let snap = agg.snapshot();
    assert_eq!(snap.len(), 2);
    assert_eq!(snap.get(&"repo-a".to_string()).unwrap().len(), 1);
    assert_eq!(snap.get(&"repo-b".to_string()).unwrap().len(), 3);
    // the mirror-image order lands in the same store
    let mut other: ResultMap<Vec<PullRequest>> = ResultMap::new();
    let for_a = decode_pulls(&pulls_payload(&[1])).unwrap();
    let for_b = decode_pulls(&pulls_payload(&[7, 8, 9])).unwrap();
    other.upsert("repo-b".to_string(), for_b);
    other.upsert("repo-a".to_string(), for_a);
    assert_eq!(other.len(), 2);
    assert_eq!(other.key_at(0), "repo-a");
    assert_eq!(other.key_at(1), "repo-b");
}

#[test]
fn upsert_replaces_the_whole_value() {
    let mut agg: ResultMap<Vec<PullRequest>> = ResultMap::new();
    agg.upsert("r".to_string(), decode_pulls(&pulls_payload(&[1, 2, 3])).unwrap());
    agg.upsert("r".to_string(), decode_pulls(&pulls_payload(&[4])).unwrap());
    let held = agg.get(&"r".to_string()).unwrap();
    assert_eq!(held.len(), 1);
    assert_eq!(held[0].number, 4);
}

#[test]
fn snapshot_is_a_point_in_time_copy() {
    let mut agg: ResultMap<Vec<PullRequest>> = ResultMap::new();
    agg.upsert("r".to_string(), decode_pulls(&pulls_payload(&[1])).unwrap());
    let snap = agg.snapshot();
    agg.upsert("r".to_string(), decode_pulls(&pulls_payload(&[5, 6])).unwrap());
    assert_eq!(snap.get(&"r".to_string()).unwrap().len(), 1);
    assert_eq!(agg.get(&"r".to_string()).unwrap().len(), 2);
}

#[test]
fn keys_are_listed_in_ascending_order() {
    let mut agg: ResultMap<Vec<PullRequest>> = ResultMap::new();
    for name in ["zeta", "alpha", "mid", "alpha2"] {
        agg.upsert(name.to_string(), vec![]);
    }
    assert_eq!(agg.len(), 4);
    assert_eq!(agg.key_at(0), "alpha");
    assert_eq!(agg.key_at(1), "alpha2");
    assert_eq!(agg.key_at(2), "mid");
    assert_eq!(agg.key_at(3), "zeta");
}

#[test]
fn removing_a_repository_stops_future_fetches_and_retains_stale_data() {
    let mut repos = TrackedRepos::new();
    repos.add("repo-a".to_string());
    repos.add("repo-b".to_string());
    let mut agg: ResultMap<Vec<PullRequest>> = ResultMap::new();
    agg.upsert("repo-b".to_string(), decode_pulls(&pulls_payload(&[1])).unwrap());

    repos.remove(&"repo-b".to_string());
    assert!(!repos.contains(&"repo-b".to_string()));
    let api = GitHubApi::default();
    match plan_refresh(&State::Pulls, &repos, &api) {
        RefreshAction::FetchPulls(targets) => {
            assert_eq!(targets, vec!["repo-a".to_string()]);
        }
        _ => panic!("a pulls refresh must plan pull-request fetches"),
    }
    // the aggregator entry for the removed repository is retained, as the
    // store documents: the planner and the store are independent
    assert!(agg.get(&"repo-b".to_string()).is_some());
}

#[test]
fn adding_a_repository_twice_tracks_it_once() {
    let mut repos = TrackedRepos::new();
    repos.add("repo-a".to_string());
    repos.add("repo-a".to_string());
    assert_eq!(repos.len(), 1);
    assert!(repos.contains(&"repo-a".to_string()));
}

#[test]
fn refresh_of_the_repository_editor_fetches_nothing() {
    let repos = TrackedRepos::new();
    let api = GitHubApi::default();
    assert!(matches!(plan_refresh(&State::Repositories, &repos, &api), RefreshAction::Nothing));
}

#[test]
fn teams_refresh_plans_three_pages() {
    let repos = TrackedRepos::new();
    let api = GitHubApi::default();
    match plan_refresh(&State::Teams, &repos, &api) {
        RefreshAction::FetchTeams(urls) => {
            assert_eq!(urls.len(), 3);
            assert_eq!(urls[0], "https://api.github.com/orgs/navikt/teams?per_page=100&page=1");
            assert_eq!(urls[2], "https://api.github.com/orgs/navikt/teams?per_page=100&page=3");
        }
        _ => panic!("a teams refresh must plan page fetches"),
    }
}

#[test]
fn refresh_with_one_success_and_one_transport_error() {
    // tracked set: repo-a and repo-b; repo-a answers two pull requests,
    // repo-b fails on the wire
    let mut repos = TrackedRepos::new();
    repos.add("repo-a".to_string());
    repos.add("repo-b".to_string());
    let api = GitHubApi::default();
    let targets = match plan_refresh(&State::Pulls, &repos, &api) {
        RefreshAction::FetchPulls(t) => t,
        _ => panic!("a pulls refresh must plan pull-request fetches"),
    };
    assert_eq!(targets, vec!["repo-a".to_string(), "repo-b".to_string()]);

    let mut agg: ResultMap<Vec<PullRequest>> = ResultMap::new();
    for repo in targets {
        let outcome = if repo == "repo-a" {
            FetchOutcome::Success(decode_pulls(&pulls_payload(&[1, 2])).unwrap())
        } else {
            FetchOutcome::TransportError
        };
        apply_fetch_outcome(&mut agg, repo, outcome);
    }
    let snap = agg.snapshot();
    let held = snap.get(&"repo-a".to_string()).unwrap();
    assert_eq!(held.len(), 2);
    assert_eq!(held[0].number, 1);
    assert_eq!(held[1].number, 2);
    // repo-b never got a value: its slot is simply absent
    assert!(snap.get(&"repo-b".to_string()).is_none());
}

#[test]
fn teams_pagination_with_one_bad_page_never_blocks() {
    // pages one to three arrive; the second fails to decode
    let mut pages = TeamPages::new();
    pages.record_page(
        r#"[{"name": "alpha", "slug": "alpha", "id": 1}, {"name": "beta", "slug": "beta", "id": 2}]"#
            .to_string(),
    );
    pages.record_page(r#"{"message": "rate limited"}"#.to_string());
    pages.record_page(r#"[{"name": "gamma", "slug": "gamma", "id": 3}]"#.to_string());
    let flat = pages.flatten();
    assert_eq!(flat.len(), 3);
    assert_eq!(flat[0].name, "alpha");
    assert_eq!(flat[1].name, "beta");
    assert_eq!(flat[2].name, "gamma");
}

#[test]
fn removing_a_store_entry_touches_no_other_key() {
    let mut agg: ResultMap<Vec<PullRequest>> = ResultMap::new();
    agg.upsert("repo-a".to_string(), decode_pulls(&pulls_payload(&[1])).unwrap());
    agg.upsert("repo-b".to_string(), decode_pulls(&pulls_payload(&[2])).unwrap());
    agg.remove(&"repo-a".to_string());
    assert!(agg.get(&"repo-a".to_string()).is_none());
    assert_eq!(agg.get(&"repo-b".to_string()).unwrap().len(), 1);
    // removing an absent key changes nothing
    agg.remove(&"never-stored".to_string());
    assert_eq!(agg.len(), 1);
}

#[test]
fn a_repository_starts_with_no_runs() {
    let runs = github_status::Runs::default();
    assert_eq!(runs.total_count, 0);
    assert!(runs.workflow_runs.is_empty());
}
