//! Workflow runs: the typed model and its JSON decoder.

use vstd::prelude::*;

use crate::json::JVal;
use crate::json::JsonVal;
use crate::json::jfield_opt_str;
use crate::json::jfield_req_i32;
use crate::json::jfield_req_i64;
use crate::json::jfield_req_str;
use crate::json::jobj_get;
use crate::json::spec_parse_json;
use crate::codec::get_opt_str;
use crate::codec::get_req_i32;
use crate::codec::get_req_i64;
use crate::codec::get_req_str;
use crate::codec::member_views;
use crate::codec::parse_json;
use crate::codec::views;
use crate::text::opt_view;
use crate::text::str_chars;

verus! {

/// One workflow run, holding the fields the dashboard reads.
pub struct WorkflowRun {
    pub id: i64,
    pub workflow_id: i64,
    pub name: Option<String>,
    pub event: String,
    pub status: Option<String>,
    pub conclusion: Option<String>,
    pub run_attempt: i32,
    pub run_started_at: Option<String>,
}

/// The mathematical image of a workflow run.
pub struct WorkflowRunV {
    pub id: int,
    pub workflow_id: int,
    pub name: Option<Seq<char>>,
    pub event: Seq<char>,
    pub status: Option<Seq<char>>,
    pub conclusion: Option<Seq<char>>,
    pub run_attempt: int,
    pub run_started_at: Option<Seq<char>>,
}

impl View for WorkflowRun {
    type V = WorkflowRunV;

    open spec fn view(&self) -> WorkflowRunV {
        WorkflowRunV {
            id: self.id as int,
            workflow_id: self.workflow_id as int,
            name: opt_view(self.name),
            event: self.event@,
            status: opt_view(self.status),
            conclusion: opt_view(self.conclusion),
            run_attempt: self.run_attempt as int,
            run_started_at: opt_view(self.run_started_at),
        }
    }
}

impl DeepView for WorkflowRun {
    type V = WorkflowRunV;

    open spec fn deep_view(&self) -> WorkflowRunV {
        self.view()
    }
}

impl crate::store::StoreValue for WorkflowRun {
    fn duplicate(&self) -> (r: Self)
        ensures
            r.deep_view() == self.deep_view(),
    {
        WorkflowRun {
            id: self.id,
            workflow_id: self.workflow_id,
            name: crate::text::clone_opt_string(&self.name),
            event: self.event.clone(),
            status: crate::text::clone_opt_string(&self.status),
            conclusion: crate::text::clone_opt_string(&self.conclusion),
            run_attempt: self.run_attempt,
            run_started_at: crate::text::clone_opt_string(&self.run_started_at),
        }
    }
}

/// The runs listing for one repository: a count and the runs themselves.
pub struct WorkflowRuns {
    pub total_count: i32,
    pub workflow_runs: Vec<WorkflowRun>,
}

/// The mathematical image of a runs listing.
pub struct WorkflowRunsV {
    pub total_count: int,
    pub workflow_runs: Seq<WorkflowRunV>,
}

/// The views of a vector of runs, in order.
pub open spec fn runs_view(rs: Seq<WorkflowRun>) -> Seq<WorkflowRunV> {
    Seq::new(
        rs.len(),
        |k: int|
            if 0 <= k < rs.len() {
                rs[k]@
            } else {
                WorkflowRunV {
                    id: 0,
                    workflow_id: 0,
                    name: None,
                    event: Seq::empty(),
                    status: None,
                    conclusion: None,
                    run_attempt: 0,
                    run_started_at: None,
                }
            },
    )
}

impl View for WorkflowRuns {
    type V = WorkflowRunsV;

    open spec fn view(&self) -> WorkflowRunsV {
        WorkflowRunsV {
            total_count: self.total_count as int,
            workflow_runs: runs_view(self.workflow_runs@),
        }
    }
}

impl DeepView for WorkflowRuns {
    type V = WorkflowRunsV;

    open spec fn deep_view(&self) -> WorkflowRunsV {
        WorkflowRunsV {
            total_count: self.total_count as int,
            workflow_runs: self.workflow_runs.deep_view(),
        }
    }
}

impl crate::store::StoreValue for WorkflowRuns {
    fn duplicate(&self) -> (r: Self)
        ensures
            r.deep_view() == self.deep_view(),
    {
        WorkflowRuns {
            total_count: self.total_count,
            workflow_runs: crate::store::StoreValue::duplicate(&self.workflow_runs),
        }
    }
}

impl Default for WorkflowRuns {
    /// The state a repository shows before any fetch: no runs at all.
    fn default() -> (r: Self)
        ensures
            r@.total_count == 0,
            r@.workflow_runs.len() == 0,
    {
        WorkflowRuns { total_count: 0, workflow_runs: Vec::new() }
    }
}

// ---------------------------------------------------------------------------
// Decoding
// ---------------------------------------------------------------------------

/// One workflow run from a JSON object: identifiers, the attempt number and
/// the triggering event are required, the rest optional.
pub open spec fn run_of_jval(j: JVal) -> Option<WorkflowRunV> {
    match j {
        JVal::Obj(ms) => match (
            jfield_req_i64(ms, "id"@),
            jfield_req_i64(ms, "workflow_id"@),
            jfield_req_i32(ms, "run_attempt"@),
            jfield_req_str(ms, "event"@),
        ) {
            (Some(id), Some(workflow_id), Some(run_attempt), Some(event)) => match (
                jfield_opt_str(ms, "name"@),
                jfield_opt_str(ms, "status"@),
                jfield_opt_str(ms, "conclusion"@),
                jfield_opt_str(ms, "run_started_at"@),
            ) {
                (Some(name), Some(status), Some(conclusion), Some(run_started_at)) => Some(
                    WorkflowRunV {
                        id,
                        workflow_id,
                        name,
                        event,
                        status,
                        conclusion,
                        run_attempt,
                        run_started_at,
                    },
                ),
                _ => None,
            },
            _ => None,
        },
        _ => None,
    }
}

/// A sequence of runs from a JSON array's elements.
pub open spec fn runs_of_seq(items: Seq<JVal>) -> Option<Seq<WorkflowRunV>>
    decreases items.len(),
{
    if items.len() == 0 {
        Some(Seq::empty())
    } else {
        match (runs_of_seq(items.drop_last()), run_of_jval(items.last())) {
            (Some(rs), Some(r)) => Some(rs.push(r)),
            _ => None,
        }
    }
}

/// A runs listing from a JSON object: the count and the array of runs.
pub open spec fn workflow_runs_of_jval(j: JVal) -> Option<WorkflowRunsV> {
    match j {
        JVal::Obj(ms) => match (jfield_req_i32(ms, "total_count"@), jobj_get(
            ms,
            "workflow_runs"@,
        )) {
            (Some(total_count), Some(JVal::Arr(items))) => match runs_of_seq(items) {
                Some(rs) => Some(WorkflowRunsV { total_count, workflow_runs: rs }),
                None => None,
            },
            _ => None,
        },
        _ => None,
    }
}

/// What decoding a runs body yields: `None` is a decode error.
pub open spec fn spec_decode_runs(s: Seq<char>) -> Option<WorkflowRunsV> {
    match spec_parse_json(s) {
        Some(j) => workflow_runs_of_jval(j),
        None => None,
    }
}

/// Every element of a well-decoded array decodes on its own.
proof fn lemma_runs_of_seq_elem(items: Seq<JVal>, k: int)
    requires
        runs_of_seq(items) is Some,
        0 <= k < items.len(),
    ensures
        run_of_jval(items[k]) is Some,
    decreases items.len(),
{
    if k == items.len() - 1 {
    } else {
        assert(items.drop_last()[k] == items[k]);
        lemma_runs_of_seq_elem(items.drop_last(), k);
    }
}

/// Decodes one workflow-run object node.
fn run_from_node(v: &JsonVal) -> (r: Option<WorkflowRun>)
    ensures
        match run_of_jval(v.view()) {
            None => r is None,
            Some(rv) => r matches Some(run) && run@ == rv,
        },
{
    match v {
        JsonVal::Obj(ms) => {
            proof {
                assert(v.view()->Obj_0 =~= member_views(ms@));
            }
            let id = match get_req_i64(ms, &str_chars("id")) {
                Some(x) => x,
                None => {
                    return None;
                }
            };
            let workflow_id = match get_req_i64(ms, &str_chars("workflow_id")) {
                Some(x) => x,
                None => {
                    return None;
                }
            };
            let run_attempt = match get_req_i32(ms, &str_chars("run_attempt")) {
                Some(x) => x,
                None => {
                    return None;
                }
            };
            let event = match get_req_str(ms, &str_chars("event")) {
                Some(x) => x,
                None => {
                    return None;
                }
            };
            let name = match get_opt_str(ms, &str_chars("name")) {
                Some(o) => o,
                None => {
                    return None;
                }
            };
            let status = match get_opt_str(ms, &str_chars("status")) {
                Some(o) => o,
                None => {
                    return None;
                }
            };
            let conclusion = match get_opt_str(ms, &str_chars("conclusion")) {
                Some(o) => o,
                None => {
                    return None;
                }
            };
            let run_started_at = match get_opt_str(ms, &str_chars("run_started_at")) {
                Some(o) => o,
                None => {
                    return None;
                }
            };
            Some(
                WorkflowRun {
                    id,
                    workflow_id,
                    name,
                    event,
                    status,
                    conclusion,
                    run_attempt,
                    run_started_at,
                },
            )
        }
        _ => None,
    }
}

/// Decodes a workflow-runs body.  `None` is a decode error.
pub fn decode_runs(s: &str) -> (r: Option<WorkflowRuns>)
    ensures
        match spec_decode_runs(s@) {
            None => r is None,
            Some(rv) => r matches Some(w) && w@ == rv,
        },
{
    let node = match parse_json(s) {
        Some(n) => n,
        None => {
            return None;
        }
    };
    match &node {
        JsonVal::Obj(ms) => {
            proof {
                assert(node.view()->Obj_0 =~= member_views(ms@));
            }
            let total_count = match get_req_i32(ms, &str_chars("total_count")) {
                Some(x) => x,
                None => {
                    return None;
                }
            };
            match crate::codec::obj_get(ms, &str_chars("workflow_runs")) {
                Some(arr) => match arr {
                    JsonVal::Arr(items) => {
                        proof {
                            assert(arr.view()->Arr_0 =~= views(items@));
                        }
                        let ghost ivs = views(items@);
                        let mut out: Vec<WorkflowRun> = Vec::new();
                        let mut i: usize = 0;
                        proof {
                            assert(ivs.take(0) =~= Seq::<JVal>::empty());
                            assert(runs_view(out@) =~= Seq::<WorkflowRunV>::empty());
                        }
                        while i < items.len()
                            invariant
                                i <= items@.len(),
                                ivs == views(items@),
                                spec_decode_runs(s@) == match runs_of_seq(ivs) {
                                    Some(rs) => Some(
                                        WorkflowRunsV {
                                            total_count: total_count as int,
                                            workflow_runs: rs,
                                        },
                                    ),
                                    None => None::<WorkflowRunsV>,
                                },
                                runs_of_seq(ivs.take(i as int)) == Some(runs_view(out@)),
                            decreases items@.len() - i,
                        {
                            match run_from_node(&items[i]) {
                                Some(run) => {
                                    let ghost pre = runs_view(out@);
                                    out.push(run);
                                    i += 1;
                                    proof {
                                        assert(ivs.take(i as int).drop_last() =~= ivs.take(
                                            i as int - 1,
                                        ));
                                        assert(ivs.take(i as int).last() == ivs[i as int - 1]);
                                        assert(runs_view(out@) =~= pre.push(out@.last()@));
                                    }
                                }
                                None => {
                                    proof {
                                        if runs_of_seq(ivs) is Some {
                                            lemma_runs_of_seq_elem(ivs, i as int);
                                        }
                                    }
                                    return None;
                                }
                            }
                        }
                        proof {
                            assert(ivs.take(items@.len() as int) =~= ivs);
                        }
                        Some(WorkflowRuns { total_count, workflow_runs: out })
                    }
                    _ => None,
                },
                None => None,
            }
        }
        _ => None,
    }
}

} // verus!
