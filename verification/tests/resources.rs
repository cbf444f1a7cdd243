//! The runs, workflows and teams decoders, the run grouping, and the
//! request-building helpers.

use github_status::github::GitHubApi;
use github_status::github::Repository;
use github_status::runs::decode_runs;
use github_status::runs::WorkflowRun;
use github_status::table::latest_per_workflow;
use github_status::table::Table;
use github_status::teams::decode_teams;
use github_status::teams::TeamPages;
use github_status::workflows::decode_workflows;
use github_status::pulls::PullRequest;
use github_status::pulls::User;

#[test]
fn runs_listing_decodes() {
    let body = r#"{"total_count": 2, "workflow_runs": [
        {"id": 100, "workflow_id": 7, "run_attempt": 2, "event": "push",
         "name": "CI", "status": "completed", "conclusion": "success",
         "run_started_at": "2023-05-01T10:00:00Z"},
        {"id": 99, "workflow_id": 8, "run_attempt": 1, "event": "pull_request"}
    ]}"#;
    let runs = decode_runs(body).unwrap();
    assert_eq!(runs.total_count, 2);
    assert_eq!(runs.workflow_runs.len(), 2);
    assert_eq!(runs.workflow_runs[0].id, 100);
    assert_eq!(runs.workflow_runs[0].workflow_id, 7);
    assert_eq!(runs.workflow_runs[0].run_attempt, 2);
    assert_eq!(runs.workflow_runs[0].event, "push");
    assert_eq!(runs.workflow_runs[0].conclusion.as_deref(), Some("success"));
    assert!(runs.workflow_runs[1].name.is_none());
    assert!(runs.workflow_runs[1].status.is_none());
}

#[test]
fn runs_listing_requires_its_fields() {
    assert!(decode_runs(r#"{"workflow_runs": []}"#).is_none());
    assert!(decode_runs(r#"{"total_count": 0}"#).is_none());
    assert!(decode_runs(r#"{"total_count": 0, "workflow_runs": [{"id": 1}]}"#).is_none());
    assert!(decode_runs("[]").is_none());
}

#[test]
fn workflows_listing_decodes() {
    let body = r#"{"total_count": 1, "workflows": [
        {"id": 5, "node_id": "W_5", "name": "Build", "path": ".github/workflows/build.yml",
         "state": "active"}]}"#;
    let resp = decode_workflows(body).unwrap();
    assert_eq!(resp.total_count, 1);
    assert_eq!(resp.workflows.len(), 1);
    assert_eq!(resp.workflows[0].id, 5);
    assert_eq!(resp.workflows[0].name, "Build");
    assert_eq!(resp.workflows[0].state, "active");
}

#[test]
fn workflows_require_every_field() {
    let body = r#"{"total_count": 1, "workflows": [{"id": 5, "name": "Build"}]}"#;
    assert!(decode_workflows(body).is_none());
}

#[test]
fn teams_page_decodes() {
    let body = r#"[{"name": "platform", "slug": "platform", "id": 11, "privacy": "closed"},
                   {"name": "web", "slug": "web-team", "id": 12}]"#;
    let teams = decode_teams(body).unwrap();
    assert_eq!(teams.len(), 2);
    assert_eq!(teams[0].name, "platform");
    assert_eq!(teams[1].slug, "web-team");
    assert_eq!(teams[1].id, 12);
}

#[test]
fn flatten_skips_a_page_that_fails_to_decode() {
    let mut pages = TeamPages::new();
    pages.record_page(r#"[{"name": "a", "slug": "a", "id": 1}]"#.to_string());
    pages.record_page("{\"oops\": ".to_string());
    pages.record_page(r#"[{"name": "c", "slug": "c", "id": 3}]"#.to_string());
    let teams = pages.flatten();
    assert_eq!(teams.len(), 2);
    assert_eq!(teams[0].name, "a");
    assert_eq!(teams[1].name, "c");
}

fn run(id: i64, workflow_id: i64, attempt: i32) -> WorkflowRun {
    WorkflowRun {
        id,
        workflow_id,
        name: None,
        event: "push".to_string(),
        status: None,
        conclusion: None,
        run_attempt: attempt,
        run_started_at: None,
    }
}

#[test]
fn grouping_keeps_the_first_run_of_each_workflow() {
    let runs = vec![run(50, 9, 3), run(49, 7, 1), run(48, 9, 2), run(47, 8, 5), run(46, 7, 9)];
    let grouped = latest_per_workflow(&runs);
    assert_eq!(grouped.len(), 3);
    // ascending workflow order, each holding the first-listed run
    assert_eq!(grouped[0].workflow_id, 7);
    assert_eq!(grouped[0].id, 49);
    assert_eq!(grouped[1].workflow_id, 8);
    assert_eq!(grouped[1].id, 47);
    assert_eq!(grouped[2].workflow_id, 9);
    assert_eq!(grouped[2].id, 50);
    assert_eq!(grouped[2].run_attempt, 3);
}

#[test]
fn grouping_of_nothing_is_nothing() {
    let grouped = latest_per_workflow(&vec![]);
    assert_eq!(grouped.len(), 0);
}

#[test]
fn endpoint_addresses() {
    let api = GitHubApi::default();
    assert_eq!(
        api.pulls_url("aap-api"),
        "https://api.github.com/repos/navikt/aap-api/pulls"
    );
    assert_eq!(
        api.runs_url("aap-bot"),
        "https://api.github.com/repos/navikt/aap-bot/actions/runs"
    );
    assert_eq!(
        api.workflows_url("aap-bot"),
        "https://api.github.com/repos/navikt/aap-bot/actions/workflows"
    );
    assert_eq!(
        api.teams_url(2),
        "https://api.github.com/orgs/navikt/teams?per_page=100&page=2"
    );
}

#[test]
fn default_repositories_are_watched() {
    let api = GitHubApi::default();
    assert_eq!(api.repos().len(), 13);
    assert_eq!(api.repos()[0], "aap-andre-ytelser");
    assert_eq!(api.repos()[12], "aap-vedtak");
}

#[test]
fn request_headers_carry_the_trimmed_credential() {
    let api = GitHubApi::default();
    let hs = api.request_headers("  token-123\n");
    assert_eq!(hs.len(), 3);
    assert_eq!(hs[0].0, "Accept");
    assert_eq!(hs[0].1, "application/vnd.github+json");
    assert_eq!(hs[1].0, "User-Agent");
    assert_eq!(hs[1].1, "rust web-api-client demo");
    assert_eq!(hs[2].0, "Authorization");
    assert_eq!(hs[2].1, "Bearer token-123");
}

#[test]
fn repository_record_starts_empty() {
    let r = Repository::create("aap-api");
    assert_eq!(r.name, "aap-api");
    assert!(r.pull_requests.is_empty());
    assert!(r.runs.is_none());
}

#[test]
fn display_accessors_fall_back_to_placeholders() {
    let p = PullRequest {
        id: 1,
        number: 12,
        title: None,
        user: None,
        html_url: None,
        updated_at: None,
        state: None,
    };
    assert_eq!(p.pr_num(), 12);
    let p2 = PullRequest {
        id: 1,
        number: 12,
        title: Some("T".to_string()),
        user: Some(User { login: "ada".to_string() }),
        html_url: Some("u".to_string()),
        updated_at: Some("now".to_string()),
        state: None,
    };
    assert_eq!(p2.user(), "ada");
    let p3 = PullRequest {
        id: 1,
        number: 12,
        title: None,
        user: None,
        html_url: None,
        updated_at: None,
        state: None,
    };
    assert_eq!(p3.user(), "unknown");
    let p = PullRequest {
        id: 1,
        number: 12,
        title: None,
        user: None,
        html_url: None,
        updated_at: None,
        state: None,
    };
    assert_eq!(p.title(), "---");
    let p = PullRequest {
        id: 1,
        number: 12,
        title: None,
        user: None,
        html_url: None,
        updated_at: None,
        state: None,
    };
    assert_eq!(p.updated(), "---");
    let p = PullRequest {
        id: 1,
        number: 12,
        title: None,
        user: None,
        html_url: None,
        updated_at: None,
        state: None,
    };
    assert_eq!(p.url(), "---");
}

#[test]
fn tables_start_unstriped() {
    let t = Table::default();
    assert!(!t.striped);
}
