//! The refresh driver's decisions: which view is active, which repositories
//! are tracked, what one refresh fetches, and how a finished fetch lands in
//! the aggregator.
//!
//! The outside work — issuing the requests and waiting for their answers —
//! happens elsewhere; everything here is the rule it follows.

use vstd::prelude::*;

use crate::github::GitHubApi;
use crate::json::enc_int;
use crate::store::ResultMap;
use crate::store::StoreValue;

verus! {

/// Which view the dashboard shows, and so what a refresh fetches.
#[derive(PartialEq, Eq, Structural)]
pub enum State {
    Repositories,
    Teams,
    Pulls,
    Runs,
}

/// The set of repository names a refresh walks.  Names are kept unique, in
/// the order they were added.
pub struct TrackedRepos {
    names: Vec<String>,
}

impl TrackedRepos {
    /// The tracked names in their deterministic order.
    pub closed spec fn names_seq(&self) -> Seq<Seq<char>> {
        Seq::new(self.names@.len(), |k: int| self.names@[k]@)
    }

    /// The watched names as a set.
    pub open spec fn name_set(&self) -> Set<Seq<char>> {
        self.names_seq().to_set()
    }

    /// Every name appears once.
    pub open spec fn inv(&self) -> bool {
        forall|i: int, j: int|
            0 <= i < j < self.names_seq().len() ==> (#[trigger] self.names_seq()[i]) != (
            #[trigger] self.names_seq()[j])
    }

    /// An empty tracked set.
    pub fn new() -> (r: Self)
        ensures
            r.inv(),
            r.names_seq().len() == 0,
    {
        TrackedRepos { names: Vec::new() }
    }

    /// How many repositories are tracked.
    pub fn len(&self) -> (r: usize)
        ensures
            r == self.names_seq().len(),
    {
        self.names.len()
    }

    /// The name at position `i` of the deterministic order.
    pub fn name_at(&self, i: usize) -> (r: &String)
        requires
            i < self.names_seq().len(),
        ensures
            r@ == self.names_seq()[i as int],
    {
        &self.names[i]
    }

    /// Whether `name` is tracked.
    #[verifier::loop_isolation(false)]
    pub fn contains(&self, name: &String) -> (r: bool)
        ensures
            r == self.name_set().contains(name@),
    {
        let mut i: usize = 0;
        while i < self.names.len()
            invariant
                i <= self.names@.len(),
                forall|q: int| 0 <= q < i ==> (#[trigger] self.names_seq()[q]) != name@,
            decreases self.names@.len() - i,
        {
            if self.names[i] == *name {
                proof {
                    assert(self.names_seq()[i as int] == name@);
                }
                return true;
            }
            i += 1;
        }
        proof {
            if self.name_set().contains(name@) {
                let w = choose|w: int|
                    0 <= w < self.names_seq().len() && self.names_seq()[w] == name@;
                assert(self.names_seq()[w] != name@);
            }
        }
        false
    }

    /// Starts tracking `name`; tracking it twice changes nothing.
    #[verifier::loop_isolation(false)]
    pub fn add(&mut self, name: String)
        requires
            old(self).inv(),
        ensures
            final(self).inv(),
            final(self).name_set() == old(self).name_set().insert(name@),
    {
        if self.contains(&name) {
            proof {
                assert(self.name_set() =~= old(self).name_set().insert(name@));
            }
            return ;
        }
        let ghost pre = self.names_seq();
        self.names.push(name);
        proof {
            assert(self.names_seq() =~= pre.push(name@));
            assert(self.name_set() =~= old(self).name_set().insert(name@)) by {
                assert forall|k: Seq<char>| self.names_seq().contains(k) implies old(
                    self,
                ).name_set().insert(name@).contains(k) by {
                    let w = choose|w: int|
                        0 <= w < self.names_seq().len() && self.names_seq()[w] == k;
                    if w < pre.len() {
                        assert(pre[w] == k);
                    }
                }
                assert forall|k: Seq<char>|
                    old(self).name_set().insert(name@).contains(k) implies self.names_seq().contains(
                    k,
                ) by {
                    if k == name@ {
                        assert(self.names_seq()[pre.len() as int] == k);
                    } else {
                        let w = choose|w: int| 0 <= w < pre.len() && pre[w] == k;
                        assert(self.names_seq()[w] == k);
                    }
                }
            }
            assert forall|i: int, j: int|
                0 <= i < j < self.names_seq().len() implies (#[trigger] self.names_seq()[i]) != (
            #[trigger] self.names_seq()[j]) by {
                if j < pre.len() {
                    assert(pre[i] != pre[j]);
                } else {
                    assert(self.names_seq()[j] == name@);
                    assert(!old(self).name_set().contains(name@));
                    assert(pre[i] == self.names_seq()[i]);
                    if pre[i] == name@ {
                        assert(pre.contains(name@));
                    }
                }
            }
        }
    }

    /// Stops tracking `name`: no later refresh will fetch it.  The
    /// aggregator entry it may already have is deliberately retained, as the
    /// store and the planner are independent.
    #[verifier::loop_isolation(false)]
    pub fn remove(&mut self, name: &String)
        requires
            old(self).inv(),
        ensures
            final(self).inv(),
            final(self).name_set() == old(self).name_set().remove(name@),
            !final(self).name_set().contains(name@),
    {
        let ghost pre = self.names_seq();
        let mut i: usize = 0;
        while i < self.names.len()
            invariant
                i <= self.names@.len(),
                self.names_seq() == pre,
                forall|q: int| 0 <= q < i ==> (#[trigger] pre[q]) != name@,
            decreases self.names@.len() - i,
        {
            if self.names[i] == *name {
                self.names.remove(i);
                proof {
                    pre.remove_ensures(i as int);
                    assert(self.names_seq() =~= pre.remove(i as int));
                    let ns = self.names_seq();
                    assert forall|p: int, q: int|
                        0 <= p < q < ns.len() implies (#[trigger] ns[p]) != (#[trigger] ns[q]) by {
                        if q < i {
                            assert(ns[p] == pre[p] && ns[q] == pre[q]);
                        } else if p >= i {
                            assert(ns[p] == pre[p + 1] && ns[q] == pre[q + 1]);
                        } else {
                            assert(ns[p] == pre[p] && ns[q] == pre[q + 1]);
                        }
                    }
                    assert(!ns.contains(name@)) by {
                        if ns.contains(name@) {
                            let w = choose|w: int| 0 <= w < ns.len() && ns[w] == name@;
                            if w < i {
                                assert(pre[w] == name@);
                            } else {
                                assert(pre[w + 1] == name@);
                                assert(pre[i as int] == name@);
                            }
                        }
                    }
                    assert(final(self).name_set() =~= old(self).name_set().remove(name@)) by {
                        assert forall|k: Seq<char>| ns.contains(k) implies old(
                            self,
                        ).name_set().remove(name@).contains(k) by {
                            let w = choose|w: int| 0 <= w < ns.len() && ns[w] == k;
                            if w < i {
                                assert(pre[w] == k);
                            } else {
                                assert(pre[w + 1] == k);
                            }
                            assert(k != name@);
                        }
                        assert forall|k: Seq<char>|
                            old(self).name_set().remove(name@).contains(k) implies ns.contains(
                            k,
                        ) by {
                            let w = choose|w: int| 0 <= w < pre.len() && pre[w] == k;
                            if w < i {
                                assert(ns[w] == k);
                            } else if w > i {
                                assert(ns[w - 1] == k);
                            } else {
                                assert(pre[i as int] == name@);
                            }
                        }
                    }
                }
                return ;
            }
            i += 1;
        }
        proof {
            assert(!pre.contains(name@)) by {
                if pre.contains(name@) {
                    let w = choose|w: int| 0 <= w < pre.len() && pre[w] == name@;
                    assert(pre[w] != name@);
                }
            }
            assert(self.name_set() =~= old(self).name_set().remove(name@));
        }
    }

    /// The list one refresh walks: every tracked repository exactly once, in
    /// the deterministic order.
    #[verifier::loop_isolation(false)]
    pub fn refresh_targets(&self) -> (r: Vec<String>)
        ensures
            crate::github::strs_view(r@) == self.names_seq(),
    {
        let mut out: Vec<String> = Vec::new();
        let mut i: usize = 0;
        while i < self.names.len()
            invariant
                i <= self.names@.len(),
                out@.len() == i,
                forall|q: int| 0 <= q < i ==> (#[trigger] out@[q])@ == self.names_seq()[q],
            decreases self.names@.len() - i,
        {
            out.push(self.names[i].clone());
            i += 1;
        }
        proof {
            assert(crate::github::strs_view(out@) =~= self.names_seq());
        }
        out
    }
}

/// What one press of the refresh button sets in motion.
pub enum RefreshAction {
    /// Fetch the pull requests of each listed repository.
    FetchPulls(Vec<String>),
    /// Fetch the workflow runs of each listed repository.
    FetchRuns(Vec<String>),
    /// Fetch each listed teams page address.
    FetchTeams(Vec<String>),
    /// The active view has nothing to fetch.
    Nothing,
}

/// Decides what a refresh fetches: the tracked repositories for the pulls
/// and runs views, the three team page addresses for the teams view, and
/// nothing for the repository editor.  A repository no longer tracked is
/// never fetched.
pub fn plan_refresh(state: &State, repos: &TrackedRepos, api: &GitHubApi) -> (r: RefreshAction)
    ensures
        match state {
            State::Pulls => r matches RefreshAction::FetchPulls(v) && crate::github::strs_view(v@)
                == repos.names_seq(),
            State::Runs => r matches RefreshAction::FetchRuns(v) && crate::github::strs_view(v@)
                == repos.names_seq(),
            State::Teams => r matches RefreshAction::FetchTeams(v) && crate::github::strs_view(v@)
                == teams_page_urls(),
            State::Repositories => r is Nothing,
        },
{
    match state {
        State::Pulls => RefreshAction::FetchPulls(repos.refresh_targets()),
        State::Runs => RefreshAction::FetchRuns(repos.refresh_targets()),
        State::Teams => {
            let mut urls: Vec<String> = Vec::new();
            urls.push(api.teams_url(1));
            urls.push(api.teams_url(2));
            urls.push(api.teams_url(3));
            proof {
                assert(crate::github::strs_view(urls@) =~= teams_page_urls());
            }
            RefreshAction::FetchTeams(urls)
        }
        State::Repositories => RefreshAction::Nothing,
    }
}

/// The three page addresses a teams refresh always asks for.
pub open spec fn teams_page_urls() -> Seq<Seq<char>> {
    seq![
        "https://api.github.com/orgs/navikt/teams?per_page=100&page="@ + enc_int(1),
        "https://api.github.com/orgs/navikt/teams?per_page=100&page="@ + enc_int(2),
        "https://api.github.com/orgs/navikt/teams?per_page=100&page="@ + enc_int(3),
    ]
}

/// How one fetch for one repository came back.
pub enum FetchOutcome<V> {
    /// The body arrived and decoded: the typed value.
    Success(V),
    /// The request itself failed: nothing arrived.
    TransportError,
    /// A body arrived but did not decode.
    DecodeError,
}

/// Lands one finished fetch in the aggregator.  A success replaces the whole
/// value under its repository; either failure is swallowed and leaves every
/// entry exactly as it was, so a failed repository keeps showing its last
/// known state.
pub fn apply_fetch_outcome<V: StoreValue>(
    agg: &mut ResultMap<V>,
    key: String,
    outcome: FetchOutcome<V>,
)
    requires
        old(agg).inv(),
    ensures
        final(agg).inv(),
        match outcome {
            FetchOutcome::Success(v) => final(agg)@ == old(agg)@.insert(key@, v.deep_view()),
            _ => final(agg)@ == old(agg)@,
        },
{
    match outcome {
        FetchOutcome::Success(v) => agg.upsert(key, v),
        FetchOutcome::TransportError => (),
        FetchOutcome::DecodeError => (),
    }
}

/// A repository that is no longer tracked appears nowhere in the refresh
/// list, so no later refresh fetches it.
pub proof fn lemma_removed_repo_never_fetched(t: TrackedRepos, name: Seq<char>)
    requires
        !t.name_set().contains(name),
    ensures
        forall|k: int| 0 <= k < t.names_seq().len() ==> (#[trigger] t.names_seq()[k]) != name,
{
    assert forall|k: int|
        0 <= k < t.names_seq().len() implies (#[trigger] t.names_seq()[k]) != name by {
        if t.names_seq()[k] == name {
            assert(t.names_seq().contains(name));
        }
    }
}

} // verus!
