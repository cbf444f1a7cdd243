//! Pull requests: the typed model, its JSON codec, and the laws the codec
//! obeys.
//!
//! A pull-request list endpoint answers with either a JSON array of pull
//! requests or the empty-object sentinel `{}`; both decode to a collection,
//! never to an error.

use vstd::prelude::*;

use crate::json::JVal;
use crate::json::JsonVal;
use crate::json::jfield_opt_str;
use crate::json::jfield_req_i32;
use crate::json::jfield_req_i64;
use crate::json::jfield_req_str;
use crate::json::jobj_get;
use crate::json::jval_wf;
use crate::json::spec_encode;
use crate::json::spec_parse_json;
use crate::codec::encode_json;
use crate::codec::get_opt_str;
use crate::codec::get_req_i32;
use crate::codec::get_req_i64;
use crate::codec::get_req_str;
use crate::codec::member_views;
use crate::codec::obj_get;
use crate::codec::parse_json;
use crate::codec::views;
use crate::json::skip_ws;
use crate::json::spec_parse_elems;
use crate::json::spec_parse_members;
use crate::json::spec_parse_value;
use crate::json_laws::lemma_decode_encode;
use crate::text::opt_view;
use crate::text::str_chars;

verus! {

/// The author of a pull request.
pub struct User {
    pub login: String,
}

/// One pull request, holding the fields the dashboard reads.  The upstream
/// API may omit any of the optional ones.
pub struct PullRequest {
    pub id: i64,
    pub number: i32,
    pub title: Option<String>,
    pub user: Option<User>,
    pub html_url: Option<String>,
    pub updated_at: Option<String>,
    pub state: Option<String>,
}

/// The mathematical image of a pull request.
pub struct PullRequestV {
    pub id: int,
    pub number: int,
    pub title: Option<Seq<char>>,
    pub user: Option<Seq<char>>,
    pub html_url: Option<Seq<char>>,
    pub updated_at: Option<Seq<char>>,
    pub state: Option<Seq<char>>,
}

impl View for PullRequest {
    type V = PullRequestV;

    open spec fn view(&self) -> PullRequestV {
        PullRequestV {
            id: self.id as int,
            number: self.number as int,
            title: opt_view(self.title),
            user: match self.user {
                Some(u) => Some(u.login@),
                None => None,
            },
            html_url: opt_view(self.html_url),
            updated_at: opt_view(self.updated_at),
            state: opt_view(self.state),
        }
    }
}

impl DeepView for PullRequest {
    type V = PullRequestV;

    open spec fn deep_view(&self) -> PullRequestV {
        self.view()
    }
}

impl crate::store::StoreValue for PullRequest {
    fn duplicate(&self) -> (r: Self)
        ensures
            r.deep_view() == self.deep_view(),
    {
        PullRequest {
            id: self.id,
            number: self.number,
            title: crate::text::clone_opt_string(&self.title),
            user: match &self.user {
                Some(u) => Some(User { login: u.login.clone() }),
                None => None,
            },
            html_url: crate::text::clone_opt_string(&self.html_url),
            updated_at: crate::text::clone_opt_string(&self.updated_at),
            state: crate::text::clone_opt_string(&self.state),
        }
    }
}

/// The fields fit the machine integers the model stores them in.  This holds
/// of the view of every decoded pull request.
pub open spec fn pr_valid(p: PullRequestV) -> bool {
    &&& i64::MIN <= p.id <= i64::MAX
    &&& i32::MIN <= p.number <= i32::MAX
}

/// The views of a vector of pull requests, in order.
pub open spec fn prs_view(ps: Seq<PullRequest>) -> Seq<PullRequestV> {
    Seq::new(
        ps.len(),
        |k: int|
            if 0 <= k < ps.len() {
                ps[k]@
            } else {
                PullRequestV {
                    id: 0,
                    number: 0,
                    title: None,
                    user: None,
                    html_url: None,
                    updated_at: None,
                    state: None,
                }
            },
    )
}

// ---------------------------------------------------------------------------
// Decoding
// ---------------------------------------------------------------------------

/// The author field: absent or `null` is no author; an object must carry a
/// `login` string.
pub open spec fn user_of_jval(ms: Seq<(Seq<char>, JVal)>) -> Option<Option<Seq<char>>> {
    match jobj_get(ms, "user"@) {
        None => Some(None),
        Some(JVal::Null) => Some(None),
        Some(JVal::Obj(ums)) => match jfield_req_str(ums, "login"@) {
            Some(l) => Some(Some(l)),
            None => None,
        },
        Some(_) => None,
    }
}

/// One pull request from a JSON object: `id` and `number` are required
/// integers, everything else optional.
pub open spec fn pr_of_jval(j: JVal) -> Option<PullRequestV> {
    match j {
        JVal::Obj(ms) => match (jfield_req_i64(ms, "id"@), jfield_req_i32(ms, "number"@)) {
            (Some(id), Some(number)) => match (
                jfield_opt_str(ms, "title"@),
                user_of_jval(ms),
                jfield_opt_str(ms, "html_url"@),
                jfield_opt_str(ms, "updated_at"@),
                jfield_opt_str(ms, "state"@),
            ) {
                (Some(title), Some(user), Some(html_url), Some(updated_at), Some(state)) => Some(
                    PullRequestV { id, number, title, user, html_url, updated_at, state },
                ),
                _ => None,
            },
            _ => None,
        },
        _ => None,
    }
}

/// A sequence of pull requests from a JSON array's elements.
pub open spec fn prs_of_seq(items: Seq<JVal>) -> Option<Seq<PullRequestV>>
    decreases items.len(),
{
    if items.len() == 0 {
        Some(Seq::empty())
    } else {
        match (prs_of_seq(items.drop_last()), pr_of_jval(items.last())) {
            (Some(ps), Some(p)) => Some(ps.push(p)),
            _ => None,
        }
    }
}

/// A pull-request list payload: an array of pull requests, or the
/// empty-object sentinel standing for no pull requests.
pub open spec fn pulls_of_jval(j: JVal) -> Option<Seq<PullRequestV>> {
    match j {
        JVal::Obj(ms) => if ms.len() == 0 {
            Some(Seq::empty())
        } else {
            None
        },
        JVal::Arr(items) => prs_of_seq(items),
        _ => None,
    }
}

/// What decoding a pull-request body yields: `None` is a decode error.
pub open spec fn spec_decode_pulls(s: Seq<char>) -> Option<Seq<PullRequestV>> {
    match spec_parse_json(s) {
        Some(j) => pulls_of_jval(j),
        None => None,
    }
}

/// Every element of a well-decoded array decodes on its own.
proof fn lemma_prs_of_seq_elem(items: Seq<JVal>, k: int)
    requires
        prs_of_seq(items) is Some,
        0 <= k < items.len(),
    ensures
        pr_of_jval(items[k]) is Some,
    decreases items.len(),
{
    if k == items.len() - 1 {
    } else {
        assert(items.drop_last()[k] == items[k]);
        lemma_prs_of_seq_elem(items.drop_last(), k);
    }
}

/// Decodes one pull-request object node.
fn pr_from_node(v: &JsonVal) -> (r: Option<PullRequest>)
    ensures
        match pr_of_jval(v.view()) {
            None => r is None,
            Some(pv) => r matches Some(p) && p@ == pv,
        },
{
    match v {
        JsonVal::Obj(ms) => {
            proof {
                assert(v.view()->Obj_0 =~= member_views(ms@));
            }
            let id = match get_req_i64(ms, &str_chars("id")) {
                Some(x) => x,
                None => {
                    return None;
                }
            };
            let number = match get_req_i32(ms, &str_chars("number")) {
                Some(x) => x,
                None => {
                    return None;
                }
            };
            let title = match get_opt_str(ms, &str_chars("title")) {
                Some(o) => o,
                None => {
                    return None;
                }
            };
            let user = match obj_get(ms, &str_chars("user")) {
                None => None,
                Some(uv) => match uv {
                    JsonVal::Null => None,
                    JsonVal::Obj(ums) => {
                        proof {
                            assert(uv.view()->Obj_0 =~= member_views(ums@));
                        }
                        match get_req_str(ums, &str_chars("login")) {
                            Some(l) => Some(User { login: l }),
                            None => {
                                return None;
                            }
                        }
                    }
                    _ => {
                        return None;
                    }
                },
            };
            let html_url = match get_opt_str(ms, &str_chars("html_url")) {
                Some(o) => o,
                None => {
                    return None;
                }
            };
            let updated_at = match get_opt_str(ms, &str_chars("updated_at")) {
                Some(o) => o,
                None => {
                    return None;
                }
            };
            let state = match get_opt_str(ms, &str_chars("state")) {
                Some(o) => o,
                None => {
                    return None;
                }
            };
            Some(PullRequest { id, number, title, user, html_url, updated_at, state })
        }
        _ => None,
    }
}

/// Decodes a pull-request list body.  `None` is a decode error; the sentinel
/// `{}` and the empty list `[]` both yield an empty collection.
pub fn decode_pulls(s: &str) -> (r: Option<Vec<PullRequest>>)
    ensures
        match spec_decode_pulls(s@) {
            None => r is None,
            Some(ps) => r matches Some(v) && prs_view(v@) == ps,
        },
{
    let node = match parse_json(s) {
        Some(n) => n,
        None => {
            return None;
        }
    };
    match &node {
        JsonVal::Obj(ms) => {
            proof {
                assert(node.view()->Obj_0 =~= member_views(ms@));
            }
            if ms.len() == 0 {
                let empty: Vec<PullRequest> = Vec::new();
                proof {
                    assert(prs_view(empty@) =~= Seq::<PullRequestV>::empty());
                }
                Some(empty)
            } else {
                None
            }
        }
        JsonVal::Arr(items) => {
            proof {
                assert(node.view()->Arr_0 =~= views(items@));
            }
            let ghost ivs = views(items@);
            let mut out: Vec<PullRequest> = Vec::new();
            let mut i: usize = 0;
            proof {
                assert(ivs.take(0) =~= Seq::<JVal>::empty());
                assert(prs_view(out@) =~= Seq::<PullRequestV>::empty());
            }
            while i < items.len()
                invariant
                    i <= items@.len(),
                    ivs == views(items@),
                    spec_decode_pulls(s@) == prs_of_seq(ivs),
                    prs_of_seq(ivs.take(i as int)) == Some(prs_view(out@)),
                decreases items@.len() - i,
            {
                match pr_from_node(&items[i]) {
                    Some(p) => {
                        let ghost pre = prs_view(out@);
                        out.push(p);
                        i += 1;
                        proof {
                            assert(ivs.take(i as int).drop_last() =~= ivs.take(i as int - 1));
                            assert(ivs.take(i as int).last() == ivs[i as int - 1]);
                            assert(prs_view(out@) =~= pre.push(out@.last()@));
                        }
                    }
                    None => {
                        proof {
                            if prs_of_seq(ivs) is Some {
                                lemma_prs_of_seq_elem(ivs, i as int);
                            }
                        }
                        return None;
                    }
                }
            }
            proof {
                assert(ivs.take(items@.len() as int) =~= ivs);
            }
            Some(out)
        }
        _ => None,
    }
}

// ---------------------------------------------------------------------------
// Encoding
// ---------------------------------------------------------------------------

/// An optional string as a JSON value: the string, or `null`.
pub open spec fn opt_str_jval(o: Option<Seq<char>>) -> JVal {
    match o {
        Some(t) => JVal::Str(t),
        None => JVal::Null,
    }
}

/// The JSON object for one pull request, fields in a fixed order, absent
/// options written as `null`.
pub open spec fn pr_to_jval(p: PullRequestV) -> JVal {
    JVal::Obj(
        seq![
            ("id"@, JVal::Int(p.id)),
            ("number"@, JVal::Int(p.number)),
            ("title"@, opt_str_jval(p.title)),
            (
                "user"@,
                match p.user {
                    Some(l) => JVal::Obj(seq![("login"@, JVal::Str(l))]),
                    None => JVal::Null,
                },
            ),
            ("html_url"@, opt_str_jval(p.html_url)),
            ("updated_at"@, opt_str_jval(p.updated_at)),
            ("state"@, opt_str_jval(p.state)),
        ],
    )
}

/// The JSON array for a list of pull requests.
pub open spec fn pulls_to_jval(ps: Seq<PullRequestV>) -> JVal {
    JVal::Arr(
        Seq::new(
            ps.len(),
            |k: int|
                if 0 <= k < ps.len() {
                    pr_to_jval(ps[k])
                } else {
                    JVal::Null
                },
        ),
    )
}

/// An optional string node.
fn opt_node(o: &Option<String>) -> (r: JsonVal)
    ensures
        r.view() == opt_str_jval(opt_view(*o)),
{
    match o {
        Some(s) => JsonVal::Str(str_chars(s.as_str())),
        None => JsonVal::Null,
    }
}

/// The object node for one pull request.
fn pr_node(p: &PullRequest) -> (r: JsonVal)
    ensures
        r.view() == pr_to_jval(p@),
{
    let mut ms: Vec<(Vec<char>, JsonVal)> = Vec::new();
    ms.push((str_chars("id"), JsonVal::Int(p.id)));
    ms.push((str_chars("number"), JsonVal::Int(p.number as i64)));
    ms.push((str_chars("title"), opt_node(&p.title)));
    let user_node = match &p.user {
        Some(u) => {
            let login_node = JsonVal::Str(str_chars(u.login.as_str()));
            proof {
                assert(login_node.view() == JVal::Str(u.login@));
            }
            let mut ums: Vec<(Vec<char>, JsonVal)> = Vec::new();
            ums.push((str_chars("login"), login_node));
            let un = JsonVal::Obj(ums);
            proof {
                assert(un.view()->Obj_0 =~= seq![("login"@, JVal::Str(u.login@))]);
            }
            un
        }
        None => JsonVal::Null,
    };
    ms.push((str_chars("user"), user_node));
    ms.push((str_chars("html_url"), opt_node(&p.html_url)));
    ms.push((str_chars("updated_at"), opt_node(&p.updated_at)));
    ms.push((str_chars("state"), opt_node(&p.state)));
    let ghost mvs = member_views(ms@);
    proof {
        assert(mvs =~= pr_to_jval(p@)->Obj_0);
    }
    let node = JsonVal::Obj(ms);
    proof {
        assert(node.view()->Obj_0 =~= mvs);
    }
    node
}

/// Encodes a list of pull requests as a compact JSON array.
pub fn encode_pulls(prs: &Vec<PullRequest>) -> (r: String)
    ensures
        r@ == spec_encode(pulls_to_jval(prs_view(prs@))),
{
    let mut items: Vec<JsonVal> = Vec::new();
    let mut i: usize = 0;
    while i < prs.len()
        invariant
            i <= prs@.len(),
            views(items@) == pulls_to_jval(prs_view(prs@))->Arr_0.take(i as int),
        decreases prs@.len() - i,
    {
        let n = pr_node(&prs[i]);
        let ghost nv = n.view();
        let ghost pre_views = views(items@);
        items.push(n);
        i += 1;
        proof {
            let target = pulls_to_jval(prs_view(prs@))->Arr_0;
            assert(target.len() == prs@.len());
            assert(pre_views.len() == i - 1);
            assert(items@.len() == i);
            assert(nv == pr_to_jval(prs_view(prs@)[i - 1]));
            assert forall|k: int| 0 <= k < i implies views(items@)[k] == target[k] by {
                if k < i - 1 {
                    assert(views(items@)[k] == items@[k].view());
                    assert(pre_views[k] == items@[k].view());
                    assert(pre_views[k] == target.take(i as int - 1)[k]);
                } else {
                    assert(items@[k] == n);
                    assert(target[k] == pr_to_jval(prs_view(prs@)[k]));
                }
            }
            assert(views(items@) =~= target.take(i as int));
        }
    }
    let node = JsonVal::Arr(items);
    proof {
        assert(pulls_to_jval(prs_view(prs@))->Arr_0.take(prs@.len() as int) =~= pulls_to_jval(
            prs_view(prs@),
        )->Arr_0);
        assert(node.view()->Arr_0 =~= views(items@));
        assert(node.view() == pulls_to_jval(prs_view(prs@)));
    }
    encode_json(&node)
}

// ---------------------------------------------------------------------------
// Laws
// ---------------------------------------------------------------------------

/// The pull-request object is well formed whenever the fields fit their
/// machine integers.
proof fn lemma_pr_to_jval_wf(p: PullRequestV)
    requires
        pr_valid(p),
    ensures
        jval_wf(pr_to_jval(p)),
{
    let ms = pr_to_jval(p)->Obj_0;
    assert forall|k: int| 0 <= k < ms.len() implies jval_wf(#[trigger] ms[k].1) by {
        match p.user {
            Some(l) => {
                assert(jval_wf(JVal::Obj(seq![("login"@, JVal::Str(l))]))) by {
                    let ums = seq![("login"@, JVal::Str(l))];
                    assert(forall|q: int| 0 <= q < ums.len() ==> jval_wf(#[trigger] ums[q].1));
                }
            }
            None => {}
        }
    }
}

/// The member lookup lands on index `k` when the later keys all differ.
proof fn lemma_jobj_get_at(ms: Seq<(Seq<char>, JVal)>, key: Seq<char>, k: int)
    requires
        0 <= k < ms.len(),
        ms[k].0 == key,
        forall|q: int| k < q < ms.len() ==> #[trigger] ms[q].0 != key,
    ensures
        jobj_get(ms, key) == Some(ms[k].1),
    decreases ms.len(),
{
    if k == ms.len() - 1 {
    } else {
        assert(ms.last().0 != key);
        lemma_jobj_get_at(ms.drop_last(), key, k);
        assert(ms.drop_last()[k] == ms[k]);
    }
}

/// Decoding inverts the pull-request object encoding.
proof fn lemma_pr_inversion(p: PullRequestV)
    requires
        pr_valid(p),
    ensures
        pr_of_jval(pr_to_jval(p)) == Some(p),
{
    let ms = pr_to_jval(p)->Obj_0;
    reveal_strlit("id");
    reveal_strlit("number");
    reveal_strlit("title");
    reveal_strlit("user");
    reveal_strlit("login");
    reveal_strlit("html_url");
    reveal_strlit("updated_at");
    reveal_strlit("state");
    assert(ms.len() == 7);
    assert(ms[0].0 == "id"@ && ms[1].0 == "number"@ && ms[2].0 == "title"@ && ms[3].0 == "user"@
        && ms[4].0 == "html_url"@ && ms[5].0 == "updated_at"@ && ms[6].0 == "state"@);
    assert("title"@ != "state"@) by {
        assert("title"@[0] == 't' && "state"@[0] == 's');
    }
    lemma_jobj_get_at(ms, "id"@, 0);
    lemma_jobj_get_at(ms, "number"@, 1);
    lemma_jobj_get_at(ms, "title"@, 2);
    lemma_jobj_get_at(ms, "user"@, 3);
    lemma_jobj_get_at(ms, "html_url"@, 4);
    lemma_jobj_get_at(ms, "updated_at"@, 5);
    lemma_jobj_get_at(ms, "state"@, 6);
    assert(jobj_get(ms, "id"@) == Some(JVal::Int(p.id)));
    assert(jobj_get(ms, "number"@) == Some(JVal::Int(p.number)));
    assert(jobj_get(ms, "title"@) == Some(opt_str_jval(p.title)));
    assert(jobj_get(ms, "html_url"@) == Some(opt_str_jval(p.html_url)));
    assert(jobj_get(ms, "updated_at"@) == Some(opt_str_jval(p.updated_at)));
    assert(jobj_get(ms, "state"@) == Some(opt_str_jval(p.state)));
    match p.user {
        Some(l) => {
            let ums = seq![("login"@, JVal::Str(l))];
            assert(jobj_get(ms, "user"@) == Some(JVal::Obj(ums)));
            lemma_jobj_get_at(ums, "login"@, 0);
            assert(jobj_get(ums, "login"@) == Some(JVal::Str(l)));
        }
        None => {
            assert(jobj_get(ms, "user"@) == Some(JVal::Null));
        }
    }
}

/// Round trip for a whole pull-request list: decoding the encoded form of any
/// list of pull requests yields exactly that list, with number, title, author
/// login and URL fields intact.
pub proof fn lemma_pulls_round_trip(ps: Seq<PullRequestV>)
    requires
        forall|k: int| 0 <= k < ps.len() ==> pr_valid(#[trigger] ps[k]),
    ensures
        spec_decode_pulls(spec_encode(pulls_to_jval(ps))) == Some(ps),
{
    let node = pulls_to_jval(ps);
    let items = node->Arr_0;
    assert(jval_wf(node)) by {
        assert forall|k: int| 0 <= k < items.len() implies jval_wf(#[trigger] items[k]) by {
            lemma_pr_to_jval_wf(ps[k]);
        }
    }
    lemma_decode_encode(node);
    lemma_prs_of_map(ps, ps.len() as int);
    assert(items.take(ps.len() as int) =~= items);
}

/// Decoding the first `n` encoded elements yields the first `n` pull
/// requests.
proof fn lemma_prs_of_map(ps: Seq<PullRequestV>, n: int)
    requires
        0 <= n <= ps.len(),
        forall|k: int| 0 <= k < ps.len() ==> pr_valid(#[trigger] ps[k]),
    ensures
        prs_of_seq(pulls_to_jval(ps)->Arr_0.take(n)) == Some(ps.take(n)),
    decreases n,
{
    let items = pulls_to_jval(ps)->Arr_0;
    if n == 0 {
        assert(items.take(0) =~= Seq::<JVal>::empty());
        assert(ps.take(0) =~= Seq::<PullRequestV>::empty());
    } else {
        lemma_prs_of_map(ps, n - 1);
        lemma_pr_inversion(ps[n - 1]);
        assert(items.take(n).drop_last() =~= items.take(n - 1));
        assert(items.take(n).last() == items[n - 1]);
        assert(ps.take(n) =~= ps.take(n - 1).push(ps[n - 1]));
    }
}

/// Whatever a pull-request array decodes to fits the model's machine
/// integers.
proof fn lemma_decoded_prs_valid(items: Seq<JVal>, ps: Seq<PullRequestV>)
    requires
        prs_of_seq(items) == Some(ps),
    ensures
        forall|k: int| 0 <= k < ps.len() ==> pr_valid(#[trigger] ps[k]),
    decreases items.len(),
{
    if items.len() > 0 {
        let ps0 = prs_of_seq(items.drop_last()).unwrap();
        lemma_decoded_prs_valid(items.drop_last(), ps0);
        assert forall|k: int| 0 <= k < ps.len() implies pr_valid(#[trigger] ps[k]) by {
            if k < ps.len() - 1 {
                assert(ps[k] == ps0[k]);
            }
        }
    }
}

/// Starting from any payload that decodes: re-encoding what it decoded to
/// and decoding again yields the same pull requests, so number, title,
/// author login and URL fields all survive the round trip.
pub proof fn lemma_decode_then_reencode(s: Seq<char>, ps: Seq<PullRequestV>)
    requires
        spec_decode_pulls(s) == Some(ps),
    ensures
        spec_decode_pulls(spec_encode(pulls_to_jval(ps))) == Some(ps),
{
    match spec_parse_json(s) {
        Some(j) => match j {
            JVal::Obj(ms) => {
                assert(ps =~= Seq::<PullRequestV>::empty());
            }
            JVal::Arr(items) => {
                lemma_decoded_prs_valid(items, ps);
            }
            _ => {}
        },
        None => {}
    }
    lemma_pulls_round_trip(ps);
}

/// The empty-object sentinel and the empty list decode alike: both are the
/// empty collection.
pub proof fn lemma_empty_payloads_agree()
    ensures
        spec_decode_pulls("{}"@) == Some(Seq::<PullRequestV>::empty()),
        spec_decode_pulls("[]"@) == Some(Seq::<PullRequestV>::empty()),
{
    reveal_strlit("{}");
    reveal_strlit("[]");
    let o = "{}"@;
    assert(o.len() == 2 && o[0] == '{' && o[1] == '}');
    assert(skip_ws(o, 0) == 0);
    assert(skip_ws(o, 1) == 1);
    assert(skip_ws(o, 2) == 2);
    assert(spec_parse_members(o, 1) == Some((Seq::<(Seq<char>, JVal)>::empty(), 2int)));
    assert(spec_parse_value(o, 0) == Some((JVal::Obj(Seq::empty()), 2int)));
    let a = "[]"@;
    assert(a.len() == 2 && a[0] == '[' && a[1] == ']');
    assert(skip_ws(a, 0) == 0);
    assert(skip_ws(a, 1) == 1);
    assert(skip_ws(a, 2) == 2);
    assert(spec_parse_elems(a, 1) == Some((Seq::<JVal>::empty(), 2int)));
    assert(spec_parse_value(a, 0) == Some((JVal::Arr(Seq::empty()), 2int)));
}

// ---------------------------------------------------------------------------
// Display accessors
// ---------------------------------------------------------------------------

impl PullRequest {
    /// The author's login, or a placeholder when the API sent none.
    pub fn user(self) -> (r: String)
        ensures
            r@ == match self@.user {
                Some(l) => l,
                None => "unknown"@,
            },
    {
        match self.user {
            Some(u) => u.login,
            None => String::from_str("unknown"),
        }
    }

    /// The update timestamp, or a placeholder when the API sent none.
    pub fn updated(self) -> (r: String)
        ensures
            r@ == match self@.updated_at {
                Some(t) => t,
                None => "---"@,
            },
    {
        match self.updated_at {
            Some(t) => t,
            None => String::from_str("---"),
        }
    }

    /// The title, or a placeholder when the API sent none.
    pub fn title(self) -> (r: String)
        ensures
            r@ == match self@.title {
                Some(t) => t,
                None => "---"@,
            },
    {
        match self.title {
            Some(t) => t,
            None => String::from_str("---"),
        }
    }

    /// The pull-request number.
    pub fn pr_num(self) -> (r: i32)
        ensures
            r as int == self@.number,
    {
        self.number
    }

    /// The web address, or a placeholder when the API sent none.
    pub fn url(self) -> (r: String)
        ensures
            r@ == match self@.html_url {
                Some(t) => t,
                None => "---"@,
            },
    {
        match self.html_url {
            Some(t) => t,
            None => String::from_str("---"),
        }
    }
}

/// A named list of pull requests, as older callers of the decoder expect it.
pub struct Pulls {
    pub pull_requests: Vec<PullRequest>,
}

/// A named list of pull requests, the shape the dashboard tables consume.
pub struct PullsResponse {
    pub pull_requests: Vec<PullRequest>,
}

} // verus!
