//! The upstream API surface: the tracked organization's endpoints, the
//! headers every request carries, and the repository record the dashboard
//! keeps per tracked name.

use vstd::prelude::*;

use crate::codec::int_to_string;
use crate::json::enc_int;
use crate::pulls::PullRequest;
use crate::runs::WorkflowRuns;
use crate::text::spec_trim;
use crate::text::trim_str;

verus! {

/// The client: the repositories it watches and the endpoints it builds.
pub struct GitHubApi {
    pub repos: Vec<String>,
}

/// The views of a vector of strings, in order.
pub open spec fn strs_view(ss: Seq<String>) -> Seq<Seq<char>> {
    Seq::new(
        ss.len(),
        |k: int|
            if 0 <= k < ss.len() {
                ss[k]@
            } else {
                Seq::empty()
            },
    )
}

impl Default for GitHubApi {
    /// A client watching the default repository set.
    fn default() -> (r: Self)
        ensures
            strs_view(r.repos@) == default_repo_names(),
    {
        let mut repos: Vec<String> = Vec::new();
        repos.push(String::from_str("aap-andre-ytelser"));
        repos.push(String::from_str("aap-api"));
        repos.push(String::from_str("aap-bot"));
        repos.push(String::from_str("aap-devtools"));
        repos.push(String::from_str("aap-inntekt"));
        repos.push(String::from_str("aap-libs"));
        repos.push(String::from_str("aap-meldeplikt"));
        repos.push(String::from_str("aap-oppgavestyring"));
        repos.push(String::from_str("aap-personopplysninger"));
        repos.push(String::from_str("aap-sink"));
        repos.push(String::from_str("aap-sykepengedager"));
        repos.push(String::from_str("aap-utbetaling"));
        repos.push(String::from_str("aap-vedtak"));
        let r = GitHubApi { repos };
        proof {
            assert(strs_view(r.repos@) =~= default_repo_names());
        }
        r
    }
}

/// The names the dashboard starts out watching.
pub open spec fn default_repo_names() -> Seq<Seq<char>> {
    seq![
        "aap-andre-ytelser"@,
        "aap-api"@,
        "aap-bot"@,
        "aap-devtools"@,
        "aap-inntekt"@,
        "aap-libs"@,
        "aap-meldeplikt"@,
        "aap-oppgavestyring"@,
        "aap-personopplysninger"@,
        "aap-sink"@,
        "aap-sykepengedager"@,
        "aap-utbetaling"@,
        "aap-vedtak"@,
    ]
}

impl GitHubApi {
    /// The watched repositories, in order.
    pub fn repos(&self) -> (r: &Vec<String>)
        ensures
            r == &self.repos,
    {
        &self.repos
    }

    /// The pull-request listing endpoint for one repository.
    pub fn pulls_url(&self, repo: &str) -> (r: String)
        ensures
            r@ == "https://api.github.com/repos/navikt/"@ + repo@ + "/pulls"@,
    {
        let mut u = String::from_str("https://api.github.com/repos/navikt/");
        u.append(repo);
        u.append("/pulls");
        u
    }

    /// The workflow-run listing endpoint for one repository.
    pub fn runs_url(&self, repo: &str) -> (r: String)
        ensures
            r@ == "https://api.github.com/repos/navikt/"@ + repo@ + "/actions/runs"@,
    {
        let mut u = String::from_str("https://api.github.com/repos/navikt/");
        u.append(repo);
        u.append("/actions/runs");
        u
    }

    /// The workflow listing endpoint for one repository.
    pub fn workflows_url(&self, repo: &str) -> (r: String)
        ensures
            r@ == "https://api.github.com/repos/navikt/"@ + repo@ + "/actions/workflows"@,
    {
        let mut u = String::from_str("https://api.github.com/repos/navikt/");
        u.append(repo);
        u.append("/actions/workflows");
        u
    }

    /// The organization teams endpoint for one page of one hundred teams.
    pub fn teams_url(&self, page: i64) -> (r: String)
        requires
            page >= 0,
        ensures
            r@ == "https://api.github.com/orgs/navikt/teams?per_page=100&page="@ + enc_int(
                page as int,
            ),
    {
        let mut u = String::from_str("https://api.github.com/orgs/navikt/teams?per_page=100&page=");
        let digits = int_to_string(page);
        u.append(digits.as_str());
        u
    }

    /// The headers every request carries: the accepted media type, the agent
    /// name, and the bearer credential with surrounding whitespace removed.
    pub fn request_headers(&self, token: &str) -> (r: Vec<(String, String)>)
        ensures
            r@.len() == 3,
            r@[0].0@ == "Accept"@ && r@[0].1@ == "application/vnd.github+json"@,
            r@[1].0@ == "User-Agent"@ && r@[1].1@ == "rust web-api-client demo"@,
            r@[2].0@ == "Authorization"@ && r@[2].1@ == "Bearer "@ + spec_trim(token@),
    {
        let mut hs: Vec<(String, String)> = Vec::new();
        hs.push((String::from_str("Accept"), String::from_str("application/vnd.github+json")));
        hs.push((String::from_str("User-Agent"), String::from_str("rust web-api-client demo")));
        let mut auth = String::from_str("Bearer ");
        let trimmed = trim_str(token);
        auth.append(trimmed.as_str());
        hs.push((String::from_str("Authorization"), auth));
        hs
    }
}

/// What the dashboard keeps for one tracked repository.
pub struct Repository {
    pub name: String,
    pub pull_requests: Vec<PullRequest>,
    pub runs: Option<WorkflowRuns>,
}

impl Repository {
    /// A fresh record: the name, no pull requests, no runs yet.
    pub fn create(name: &str) -> (r: Self)
        ensures
            r.name@ == name@,
            r.pull_requests@.len() == 0,
            r.runs is None,
    {
        Repository { name: name.to_owned(), pull_requests: Vec::new(), runs: None }
    }
}

} // verus!
