//! Workflows: the typed model and its JSON decoder.

use vstd::prelude::*;

use crate::json::JVal;
use crate::json::JsonVal;
use crate::json::jfield_req_i32;
use crate::json::jfield_req_i64;
use crate::json::jfield_req_str;
use crate::json::jobj_get;
use crate::json::spec_parse_json;
use crate::codec::get_req_i32;
use crate::codec::get_req_i64;
use crate::codec::get_req_str;
use crate::codec::member_views;
use crate::codec::obj_get;
use crate::codec::parse_json;
use crate::codec::views;
use crate::text::str_chars;

verus! {

/// One workflow definition.
pub struct Workflow {
    pub id: i64,
    pub node_id: String,
    pub name: String,
    pub path: String,
    pub state: String,
}

/// The mathematical image of a workflow.
pub struct WorkflowV {
    pub id: int,
    pub node_id: Seq<char>,
    pub name: Seq<char>,
    pub path: Seq<char>,
    pub state: Seq<char>,
}

impl View for Workflow {
    type V = WorkflowV;

    open spec fn view(&self) -> WorkflowV {
        WorkflowV {
            id: self.id as int,
            node_id: self.node_id@,
            name: self.name@,
            path: self.path@,
            state: self.state@,
        }
    }
}

impl DeepView for Workflow {
    type V = WorkflowV;

    open spec fn deep_view(&self) -> WorkflowV {
        self.view()
    }
}

impl crate::store::StoreValue for Workflow {
    fn duplicate(&self) -> (r: Self)
        ensures
            r.deep_view() == self.deep_view(),
    {
        Workflow {
            id: self.id,
            node_id: self.node_id.clone(),
            name: self.name.clone(),
            path: self.path.clone(),
            state: self.state.clone(),
        }
    }
}

/// The workflows listing for one repository.
pub struct WorkflowsResponse {
    pub total_count: i32,
    pub workflows: Vec<Workflow>,
}

/// The views of a vector of workflows, in order.
pub open spec fn workflows_view(ws: Seq<Workflow>) -> Seq<WorkflowV> {
    Seq::new(
        ws.len(),
        |k: int|
            if 0 <= k < ws.len() {
                ws[k]@
            } else {
                WorkflowV {
                    id: 0,
                    node_id: Seq::empty(),
                    name: Seq::empty(),
                    path: Seq::empty(),
                    state: Seq::empty(),
                }
            },
    )
}

// ---------------------------------------------------------------------------
// Decoding
// ---------------------------------------------------------------------------

/// One workflow from a JSON object: every field is required.
pub open spec fn workflow_of_jval(j: JVal) -> Option<WorkflowV> {
    match j {
        JVal::Obj(ms) => match (
            jfield_req_i64(ms, "id"@),
            jfield_req_str(ms, "node_id"@),
            jfield_req_str(ms, "name"@),
            jfield_req_str(ms, "path"@),
            jfield_req_str(ms, "state"@),
        ) {
            (Some(id), Some(node_id), Some(name), Some(path), Some(state)) => Some(
                WorkflowV { id, node_id, name, path, state },
            ),
            _ => None,
        },
        _ => None,
    }
}

/// A sequence of workflows from a JSON array's elements.
pub open spec fn workflows_of_seq(items: Seq<JVal>) -> Option<Seq<WorkflowV>>
    decreases items.len(),
{
    if items.len() == 0 {
        Some(Seq::empty())
    } else {
        match (workflows_of_seq(items.drop_last()), workflow_of_jval(items.last())) {
            (Some(ws), Some(w)) => Some(ws.push(w)),
            _ => None,
        }
    }
}

/// The workflows listing: a count and the array of workflows.
pub open spec fn workflows_resp_of_jval(j: JVal) -> Option<(int, Seq<WorkflowV>)> {
    match j {
        JVal::Obj(ms) => match (jfield_req_i32(ms, "total_count"@), jobj_get(ms, "workflows"@)) {
            (Some(total_count), Some(JVal::Arr(items))) => match workflows_of_seq(items) {
                Some(ws) => Some((total_count, ws)),
                None => None,
            },
            _ => None,
        },
        _ => None,
    }
}

/// What decoding a workflows body yields: `None` is a decode error.
pub open spec fn spec_decode_workflows(s: Seq<char>) -> Option<(int, Seq<WorkflowV>)> {
    match spec_parse_json(s) {
        Some(j) => workflows_resp_of_jval(j),
        None => None,
    }
}

/// Every element of a well-decoded array decodes on its own.
proof fn lemma_workflows_of_seq_elem(items: Seq<JVal>, k: int)
    requires
        workflows_of_seq(items) is Some,
        0 <= k < items.len(),
    ensures
        workflow_of_jval(items[k]) is Some,
    decreases items.len(),
{
    if k == items.len() - 1 {
    } else {
        assert(items.drop_last()[k] == items[k]);
        lemma_workflows_of_seq_elem(items.drop_last(), k);
    }
}

/// Decodes one workflow object node.
fn workflow_from_node(v: &JsonVal) -> (r: Option<Workflow>)
    ensures
        match workflow_of_jval(v.view()) {
            None => r is None,
            Some(wv) => r matches Some(w) && w@ == wv,
        },
{
    match v {
        JsonVal::Obj(ms) => {
            proof {
                assert(v.view()->Obj_0 =~= member_views(ms@));
            }
            let id = match get_req_i64(ms, &str_chars("id")) {
                Some(x) => x,
                None => {
                    return None;
                }
            };
            let node_id = match get_req_str(ms, &str_chars("node_id")) {
                Some(x) => x,
                None => {
                    return None;
                }
            };
            let name = match get_req_str(ms, &str_chars("name")) {
                Some(x) => x,
                None => {
                    return None;
                }
            };
            let path = match get_req_str(ms, &str_chars("path")) {
                Some(x) => x,
                None => {
                    return None;
                }
            };
            let state = match get_req_str(ms, &str_chars("state")) {
                Some(x) => x,
                None => {
                    return None;
                }
            };
            Some(Workflow { id, node_id, name, path, state })
        }
        _ => None,
    }
}

/// Decodes a workflows body.  `None` is a decode error.
pub fn decode_workflows(s: &str) -> (r: Option<WorkflowsResponse>)
    ensures
        match spec_decode_workflows(s@) {
            None => r is None,
            Some((tc, ws)) => r matches Some(w) && w.total_count as int == tc && workflows_view(
                w.workflows@,
            ) == ws,
        },
{
    let node = match parse_json(s) {
        Some(n) => n,
        None => {
            return None;
        }
    };
    match &node {
        JsonVal::Obj(ms) => {
            proof {
                assert(node.view()->Obj_0 =~= member_views(ms@));
            }
            let total_count = match get_req_i32(ms, &str_chars("total_count")) {
                Some(x) => x,
                None => {
                    return None;
                }
            };
            match obj_get(ms, &str_chars("workflows")) {
                Some(arr) => match arr {
                    JsonVal::Arr(items) => {
                        proof {
                            assert(arr.view()->Arr_0 =~= views(items@));
                        }
                        let ghost ivs = views(items@);
                        let mut out: Vec<Workflow> = Vec::new();
                        let mut i: usize = 0;
                        proof {
                            assert(ivs.take(0) =~= Seq::<JVal>::empty());
                            assert(workflows_view(out@) =~= Seq::<WorkflowV>::empty());
                        }
                        while i < items.len()
                            invariant
                                i <= items@.len(),
                                ivs == views(items@),
                                spec_decode_workflows(s@) == match workflows_of_seq(ivs) {
                                    Some(ws) => Some((total_count as int, ws)),
                                    None => None::<(int, Seq<WorkflowV>)>,
                                },
                                workflows_of_seq(ivs.take(i as int)) == Some(
                                    workflows_view(out@),
                                ),
                            decreases items@.len() - i,
                        {
                            match workflow_from_node(&items[i]) {
                                Some(w) => {
                                    let ghost pre = workflows_view(out@);
                                    out.push(w);
                                    i += 1;
                                    proof {
                                        assert(ivs.take(i as int).drop_last() =~= ivs.take(
                                            i as int - 1,
                                        ));
                                        assert(ivs.take(i as int).last() == ivs[i as int - 1]);
                                        assert(workflows_view(out@) =~= pre.push(out@.last()@));
                                    }
                                }
                                None => {
                                    proof {
                                        if workflows_of_seq(ivs) is Some {
                                            lemma_workflows_of_seq_elem(ivs, i as int);
                                        }
                                    }
                                    return None;
                                }
                            }
                        }
                        proof {
                            assert(ivs.take(items@.len() as int) =~= ivs);
                        }
                        Some(WorkflowsResponse { total_count, workflows: out })
                    }
                    _ => None,
                },
                None => None,
            }
        }
        _ => None,
    }
}

} // verus!
