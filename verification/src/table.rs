//! Table presentation decisions: the table's own settings, and the grouping
//! of workflow runs that the runs table shows — one row per workflow, the
//! earliest-listed (latest) run of each, rows in ascending workflow order.

use vstd::prelude::*;

use crate::runs::WorkflowRun;
use crate::store::StoreValue;
use crate::runs::WorkflowRunV;

verus! {

/// The table widget's own settings.
pub struct Table {
    pub striped: bool,
}

impl Default for Table {
    /// A plain, unstriped table.
    fn default() -> (r: Self)
        ensures
            !r.striped,
    {
        Table { striped: false }
    }
}

/// `r` stands at position `j` of `rv` and no earlier run shares its
/// workflow.
pub open spec fn first_of_workflow(rv: Seq<WorkflowRunV>, r: WorkflowRunV, j: int) -> bool {
    &&& 0 <= j < rv.len()
    &&& rv[j] == r
    &&& forall|q: int| 0 <= q < j ==> (#[trigger] rv[q].workflow_id) != r.workflow_id
}

/// `r` is, somewhere among the first `upto` runs, the first of its workflow.
pub open spec fn is_first_somewhere(rv: Seq<WorkflowRunV>, upto: int, r: WorkflowRunV) -> bool {
    exists|j: int| 0 <= j < upto && first_of_workflow(rv, r, j)
}

/// Some collected run carries this workflow.
pub open spec fn wid_covered(ov: Seq<WorkflowRunV>, wid: int) -> bool {
    exists|k: int| 0 <= k < ov.len() && (#[trigger] ov[k].workflow_id) == wid
}

/// Ascending, duplicate-free workflow order.
pub open spec fn sorted_by_workflow(s: Seq<WorkflowRunV>) -> bool {
    forall|k1: int, k2: int|
        0 <= k1 < k2 < s.len() ==> (#[trigger] s[k1].workflow_id) < (#[trigger] s[k2].workflow_id)
}

/// Every collected run is the first of its workflow among the runs read so
/// far.
pub open spec fn all_firsts(rv: Seq<WorkflowRunV>, upto: int, ov: Seq<WorkflowRunV>) -> bool {
    forall|k: int| 0 <= k < ov.len() ==> is_first_somewhere(rv, upto, #[trigger] ov[k])
}

/// Every workflow among the runs read so far has a collected run.
pub open spec fn all_covered(rv: Seq<WorkflowRunV>, upto: int, ov: Seq<WorkflowRunV>) -> bool {
    forall|j: int| 0 <= j < upto ==> wid_covered(ov, (#[trigger] rv[j]).workflow_id)
}

/// Inserting the first run of a new workflow at its ordered position keeps
/// all three collection properties.
proof fn lemma_insert_keeps_grouping(
    rv: Seq<WorkflowRunV>,
    i: int,
    ov: Seq<WorkflowRunV>,
    nv: Seq<WorkflowRunV>,
    pos: int,
)
    requires
        0 <= i < rv.len(),
        0 <= pos <= ov.len(),
        nv.len() == ov.len() + 1,
        forall|k: int|
            0 <= k < nv.len() ==> (#[trigger] nv[k]) == if k < pos {
                ov[k]
            } else if k == pos {
                rv[i]
            } else {
                ov[k - 1]
            },
        sorted_by_workflow(ov),
        all_firsts(rv, i, ov),
        all_covered(rv, i, ov),
        forall|k: int| 0 <= k < pos ==> (#[trigger] ov[k].workflow_id) < rv[i].workflow_id,
        pos < ov.len() ==> ov[pos].workflow_id > rv[i].workflow_id,
        forall|q: int| 0 <= q < i ==> (#[trigger] rv[q].workflow_id) != rv[i].workflow_id,
    ensures
        sorted_by_workflow(nv),
        all_firsts(rv, i + 1, nv),
        all_covered(rv, i + 1, nv),
{
    assert forall|k1: int, k2: int|
        0 <= k1 < k2 < nv.len() implies (#[trigger] nv[k1].workflow_id) < (
    #[trigger] nv[k2].workflow_id) by {
        if k2 < pos {
        } else if k1 > pos {
        } else if k1 < pos && k2 == pos {
        } else if k1 == pos {
            if k2 - 1 > pos {
                assert(ov[pos].workflow_id < ov[k2 - 1].workflow_id);
            }
        } else {
            if k2 - 1 > pos {
                assert(ov[pos].workflow_id < ov[k2 - 1].workflow_id);
            }
        }
    }
    assert forall|k: int|
        0 <= k < nv.len() implies is_first_somewhere(rv, i + 1, #[trigger] nv[k]) by {
        if k == pos {
            assert(first_of_workflow(rv, nv[k], i));
        } else {
            let old_k = if k < pos {
                k
            } else {
                k - 1
            };
            assert(0 <= old_k < ov.len());
            assert(is_first_somewhere(rv, i, ov[old_k]));
            let j0 = choose|j0: int| 0 <= j0 < i && first_of_workflow(rv, ov[old_k], j0);
            assert(first_of_workflow(rv, nv[k], j0));
        }
    }
    assert forall|j: int|
        0 <= j < i + 1 implies wid_covered(nv, (#[trigger] rv[j]).workflow_id) by {
        if j == i {
            assert(nv[pos].workflow_id == rv[j].workflow_id);
        } else {
            assert(wid_covered(ov, rv[j].workflow_id));
            let k0 = choose|k0: int| 0 <= k0 < ov.len() && ov[k0].workflow_id == rv[j].workflow_id;
            if k0 < pos {
                assert(nv[k0].workflow_id == rv[j].workflow_id);
            } else {
                assert(nv[k0 + 1].workflow_id == rv[j].workflow_id);
            }
        }
    }
}

/// One run per workflow: for every workflow that appears in `runs`, the run
/// listed first for it (the listing is newest first, so its latest attempt),
/// in ascending workflow order.
#[verifier::loop_isolation(false)]
pub fn latest_per_workflow(runs: &Vec<WorkflowRun>) -> (out: Vec<WorkflowRun>)
    ensures
        sorted_by_workflow(out.deep_view()),
        all_firsts(runs.deep_view(), runs.deep_view().len() as int, out.deep_view()),
        all_covered(runs.deep_view(), runs.deep_view().len() as int, out.deep_view()),
{
    let ghost rv = runs.deep_view();
    let mut out: Vec<WorkflowRun> = Vec::new();
    let mut i: usize = 0;
    while i < runs.len()
        invariant
            i <= runs@.len(),
            sorted_by_workflow(out.deep_view()),
            all_firsts(rv, i as int, out.deep_view()),
            all_covered(rv, i as int, out.deep_view()),
        decreases runs@.len() - i,
    {
        let r = &runs[i];
        let ghost ov = out.deep_view();
        let mut pos: usize = 0;
        while pos < out.len() && out[pos].workflow_id < r.workflow_id
            invariant
                pos <= out@.len(),
                out.deep_view() == ov,
                forall|k: int| 0 <= k < pos ==> (#[trigger] ov[k].workflow_id) < r@.workflow_id,
            decreases out@.len() - pos,
        {
            proof {
                assert(ov[pos as int].workflow_id == out@[pos as int].deep_view().workflow_id);
            }
            pos += 1;
        }
        if pos < out.len() && out[pos].workflow_id == r.workflow_id {
            proof {
                assert(ov[pos as int].workflow_id == r@.workflow_id);
                assert forall|j: int|
                    0 <= j < i + 1 implies wid_covered(ov, (#[trigger] rv[j]).workflow_id) by {
                    if j == i {
                        assert(ov[pos as int].workflow_id == rv[j].workflow_id);
                    }
                }
            }
        } else {
            proof {
                // the workflow of this run is not collected yet
                assert forall|k: int|
                    0 <= k < ov.len() implies (#[trigger] ov[k].workflow_id)
                        != r@.workflow_id by {
                    if k >= pos {
                        assert(ov[pos as int].workflow_id == out@[
                            pos as int
                        ].deep_view().workflow_id);
                        if k > pos {
                            assert(ov[pos as int].workflow_id < ov[k].workflow_id);
                        }
                    }
                }
                // so no earlier run shares its workflow either
                assert forall|q: int|
                    0 <= q < i implies (#[trigger] rv[q].workflow_id) != r@.workflow_id by {
                    if rv[q].workflow_id == r@.workflow_id {
                        assert(wid_covered(ov, rv[q].workflow_id));
                        let k0 = choose|k0: int|
                            0 <= k0 < ov.len() && ov[k0].workflow_id == rv[q].workflow_id;
                        assert(ov[k0].workflow_id != r@.workflow_id);
                    }
                }
            }
            let dup = r.duplicate();
            out.insert(pos, dup);
            proof {
                let nv = out.deep_view();
                assert forall|k: int| 0 <= k < nv.len() implies (#[trigger] nv[k]) == if k
                    < pos {
                    ov[k]
                } else if k == pos {
                    rv[i as int]
                } else {
                    ov[k - 1]
                } by {
                    if k < pos {
                        assert(out@[k].deep_view() == ov[k]);
                    } else if k == pos {
                        assert(out@[k].deep_view() == r@);
                    } else {
                        assert(out@[k].deep_view() == ov[k - 1]);
                    }
                }
                lemma_insert_keeps_grouping(rv, i as int, ov, nv, pos as int);
            }
        }
        i += 1;
    }
    out
}

} // verus!
