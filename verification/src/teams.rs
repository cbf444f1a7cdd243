//! Teams: the typed model, its JSON decoder, and the paged collection that
//! the teams endpoint is read through.
//!
//! Teams arrive page by page.  Raw pages are recorded as they come in, and
//! flattening decodes whatever pages have arrived so far; a page that fails
//! to decode contributes no teams and never blocks the others.

use vstd::prelude::*;

use crate::json::JVal;
use crate::json::JsonVal;
use crate::json::jfield_req_i64;
use crate::json::jfield_req_str;
use crate::json::spec_parse_json;
use crate::codec::get_req_i64;
use crate::codec::get_req_str;
use crate::codec::member_views;
use crate::codec::parse_json;
use crate::codec::views;
use crate::text::str_chars;

verus! {

/// One team of the organization.
pub struct Team {
    pub name: String,
    pub slug: String,
    pub id: i64,
}

/// The mathematical image of a team.
pub struct TeamV {
    pub name: Seq<char>,
    pub slug: Seq<char>,
    pub id: int,
}

impl View for Team {
    type V = TeamV;

    open spec fn view(&self) -> TeamV {
        TeamV { name: self.name@, slug: self.slug@, id: self.id as int }
    }
}

impl DeepView for Team {
    type V = TeamV;

    open spec fn deep_view(&self) -> TeamV {
        self.view()
    }
}

impl crate::store::StoreValue for Team {
    fn duplicate(&self) -> (r: Self)
        ensures
            r.deep_view() == self.deep_view(),
    {
        Team { name: self.name.clone(), slug: self.slug.clone(), id: self.id }
    }
}

/// The views of a vector of teams, in order.
pub open spec fn teams_view(ts: Seq<Team>) -> Seq<TeamV> {
    Seq::new(
        ts.len(),
        |k: int|
            if 0 <= k < ts.len() {
                ts[k]@
            } else {
                TeamV { name: Seq::empty(), slug: Seq::empty(), id: 0 }
            },
    )
}

/// The views of a vector of raw pages, in order.
pub open spec fn pages_view(ps: Seq<String>) -> Seq<Seq<char>> {
    Seq::new(
        ps.len(),
        |k: int|
            if 0 <= k < ps.len() {
                ps[k]@
            } else {
                Seq::empty()
            },
    )
}

// ---------------------------------------------------------------------------
// Decoding
// ---------------------------------------------------------------------------

/// One team from a JSON object: name, slug and identifier are required.
pub open spec fn team_of_jval(j: JVal) -> Option<TeamV> {
    match j {
        JVal::Obj(ms) => match (
            jfield_req_str(ms, "name"@),
            jfield_req_str(ms, "slug"@),
            jfield_req_i64(ms, "id"@),
        ) {
            (Some(name), Some(slug), Some(id)) => Some(TeamV { name, slug, id }),
            _ => None,
        },
        _ => None,
    }
}

/// A sequence of teams from a JSON array's elements.
pub open spec fn teams_of_seq(items: Seq<JVal>) -> Option<Seq<TeamV>>
    decreases items.len(),
{
    if items.len() == 0 {
        Some(Seq::empty())
    } else {
        match (teams_of_seq(items.drop_last()), team_of_jval(items.last())) {
            (Some(ts), Some(t)) => Some(ts.push(t)),
            _ => None,
        }
    }
}

/// A teams page: a JSON array of teams.
pub open spec fn teams_of_jval(j: JVal) -> Option<Seq<TeamV>> {
    match j {
        JVal::Arr(items) => teams_of_seq(items),
        _ => None,
    }
}

/// What decoding one teams page yields: `None` is a decode error.
pub open spec fn spec_decode_teams(s: Seq<char>) -> Option<Seq<TeamV>> {
    match spec_parse_json(s) {
        Some(j) => teams_of_jval(j),
        None => None,
    }
}

/// The flattening of a sequence of raw pages: each page contributes its
/// decoded teams, and a page that fails to decode contributes none.
pub open spec fn spec_flatten_pages(pages: Seq<Seq<char>>) -> Seq<TeamV>
    decreases pages.len(),
{
    if pages.len() == 0 {
        Seq::empty()
    } else {
        spec_flatten_pages(pages.drop_last()) + match spec_decode_teams(pages.last()) {
            Some(ts) => ts,
            None => Seq::empty(),
        }
    }
}

/// Every element of a well-decoded array decodes on its own.
proof fn lemma_teams_of_seq_elem(items: Seq<JVal>, k: int)
    requires
        teams_of_seq(items) is Some,
        0 <= k < items.len(),
    ensures
        team_of_jval(items[k]) is Some,
    decreases items.len(),
{
    if k == items.len() - 1 {
    } else {
        assert(items.drop_last()[k] == items[k]);
        lemma_teams_of_seq_elem(items.drop_last(), k);
    }
}

/// Decodes one team object node.
fn team_from_node(v: &JsonVal) -> (r: Option<Team>)
    ensures
        match team_of_jval(v.view()) {
            None => r is None,
            Some(tv) => r matches Some(t) && t@ == tv,
        },
{
    match v {
        JsonVal::Obj(ms) => {
            proof {
                assert(v.view()->Obj_0 =~= member_views(ms@));
            }
            let name = match get_req_str(ms, &str_chars("name")) {
                Some(x) => x,
                None => {
                    return None;
                }
            };
            let slug = match get_req_str(ms, &str_chars("slug")) {
                Some(x) => x,
                None => {
                    return None;
                }
            };
            let id = match get_req_i64(ms, &str_chars("id")) {
                Some(x) => x,
                None => {
                    return None;
                }
            };
            Some(Team { name, slug, id })
        }
        _ => None,
    }
}

/// Decodes one teams page.  `None` is a decode error.
pub fn decode_teams(s: &str) -> (r: Option<Vec<Team>>)
    ensures
        match spec_decode_teams(s@) {
            None => r is None,
            Some(ts) => r matches Some(v) && teams_view(v@) == ts,
        },
{
    let node = match parse_json(s) {
        Some(n) => n,
        None => {
            return None;
        }
    };
    match &node {
        JsonVal::Arr(items) => {
            proof {
                assert(node.view()->Arr_0 =~= views(items@));
            }
            let ghost ivs = views(items@);
            let mut out: Vec<Team> = Vec::new();
            let mut i: usize = 0;
            proof {
                assert(ivs.take(0) =~= Seq::<JVal>::empty());
                assert(teams_view(out@) =~= Seq::<TeamV>::empty());
            }
            while i < items.len()
                invariant
                    i <= items@.len(),
                    ivs == views(items@),
                    spec_decode_teams(s@) == teams_of_seq(ivs),
                    teams_of_seq(ivs.take(i as int)) == Some(teams_view(out@)),
                decreases items@.len() - i,
            {
                match team_from_node(&items[i]) {
                    Some(t) => {
                        let ghost pre = teams_view(out@);
                        out.push(t);
                        i += 1;
                        proof {
                            assert(ivs.take(i as int).drop_last() =~= ivs.take(i as int - 1));
                            assert(ivs.take(i as int).last() == ivs[i as int - 1]);
                            assert(teams_view(out@) =~= pre.push(out@.last()@));
                        }
                    }
                    None => {
                        proof {
                            if teams_of_seq(ivs) is Some {
                                lemma_teams_of_seq_elem(ivs, i as int);
                            }
                        }
                        return None;
                    }
                }
            }
            proof {
                assert(ivs.take(items@.len() as int) =~= ivs);
            }
            Some(out)
        }
        _ => None,
    }
}

// ---------------------------------------------------------------------------
// The paged collection
// ---------------------------------------------------------------------------

/// The raw pages of one paginated teams fetch, in arrival order.
pub struct TeamPages {
    pub raw: Vec<String>,
}

impl TeamPages {
    /// No pages yet.
    pub fn new() -> (r: TeamPages)
        ensures
            pages_view(r.raw@).len() == 0,
    {
        TeamPages { raw: Vec::new() }
    }

    /// Records one raw page as it arrives.
    pub fn record_page(&mut self, body: String)
        ensures
            pages_view(final(self).raw@) == pages_view(old(self).raw@).push(body@),
    {
        let ghost b = body@;
        self.raw.push(body);
        proof {
            assert(pages_view(self.raw@) =~= pages_view(old(self).raw@).push(b));
        }
    }

    /// Flattens whatever pages have arrived so far: the decoded teams of each
    /// page in order, a page that fails to decode contributing none.
    pub fn flatten(&self) -> (r: Vec<Team>)
        ensures
            teams_view(r@) == spec_flatten_pages(pages_view(self.raw@)),
    {
        let ghost pvs = pages_view(self.raw@);
        let mut out: Vec<Team> = Vec::new();
        let mut i: usize = 0;
        proof {
            assert(pvs.take(0) =~= Seq::<Seq<char>>::empty());
            assert(teams_view(out@) =~= Seq::<TeamV>::empty());
            assert(spec_flatten_pages(pvs.take(0)) =~= Seq::<TeamV>::empty());
        }
        while i < self.raw.len()
            invariant
                i <= self.raw@.len(),
                pvs == pages_view(self.raw@),
                teams_view(out@) == spec_flatten_pages(pvs.take(i as int)),
            decreases self.raw@.len() - i,
        {
            let ghost pre = teams_view(out@);
            match decode_teams(self.raw[i].as_str()) {
                Some(mut ts) => {
                    let ghost tvs = teams_view(ts@);
                    out.append(&mut ts);
                    proof {
                        assert(teams_view(out@) =~= pre + tvs);
                    }
                }
                None => {
                    proof {
                        assert(teams_view(out@) =~= pre + Seq::<TeamV>::empty());
                    }
                }
            }
            i += 1;
            proof {
                assert(pvs.take(i as int).drop_last() =~= pvs.take(i as int - 1));
                assert(pvs.take(i as int).last() == pvs[i as int - 1]);
            }
        }
        proof {
            assert(pvs.take(self.raw@.len() as int) =~= pvs);
        }
        out
    }
}

} // verus!
