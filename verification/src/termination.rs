//! The termination policy: per-process classification and the
//! children-before-root batch plan.
//!
//! Per process the policy escalates: a graceful close is attempted first,
//! then an unconditional kill; a kill refused because the process no
//! longer exists is the goal state already reached, not an error.  For a
//! whole tree the plan lists every descendant strictly before the root,
//! and the overall verdict depends on the root's outcome alone —
//! descendant failures are tolerated.

use vstd::prelude::*;
use crate::errors::ProcessError;
use crate::hierarchy::{ParentMap, expand_descendants, reachable};
use crate::strutil::{fold, has_substring, str_contains, contains_ignore_case};

verus! {

/// How one termination attempt ended.
#[derive(Debug, Clone)]
pub enum TerminationOutcome {
    /// The process was terminated by one of the two attempts.
    Terminated,
    /// The process no longer existed; the goal state was already
    /// satisfied.
    AlreadyGone,
    /// Both attempts failed for another reason; the raw diagnostic text
    /// rides along.
    Failed(String),
}

/// Whether a kill utility's error text is its way of reporting that the
/// target process does not exist.
pub open spec fn reports_gone(e: Seq<char>) -> bool {
    has_substring(e, "not found"@) || has_substring(e, "No tasks"@)
}

/// Classify one process's termination from the two attempts: success of
/// either attempt means the process was terminated; otherwise the forced
/// attempt's error text decides between "already gone" and a real
/// failure, whose raw text is kept.
pub fn classify_termination(graceful_ok: bool, forced_ok: bool, forced_stderr: &str) -> (r:
    TerminationOutcome)
    ensures
        graceful_ok || forced_ok ==> r is Terminated,
        !graceful_ok && !forced_ok && reports_gone(forced_stderr@) ==> r is AlreadyGone,
        !graceful_ok && !forced_ok && !reports_gone(forced_stderr@) ==> (r matches
        TerminationOutcome::Failed(m) && m@ == forced_stderr@),
{
    if graceful_ok || forced_ok {
        TerminationOutcome::Terminated
    } else if str_contains(forced_stderr, "not found") || str_contains(forced_stderr, "No tasks") {
        TerminationOutcome::AlreadyGone
    } else {
        TerminationOutcome::Failed(forced_stderr.to_owned())
    }
}

/// Reorder a descendant listing that starts with its root into
/// termination order: every other member first, the root last.
pub fn termination_order(descendants: &Vec<u32>) -> (r: Vec<u32>)
    requires
        descendants@.len() >= 1,
        forall|i: int, j: int|
            0 <= i < j < descendants@.len() ==> descendants@[i] != descendants@[j],
    ensures
        r@.len() == descendants@.len(),
        r@ == descendants@.subrange(1, descendants@.len() as int) + seq![descendants@[0]],
        r@[r@.len() - 1] == descendants@[0],
        forall|i: int| 0 <= i < r@.len() - 1 ==> r@[i] != descendants@[0],
        forall|p: u32| r@.contains(p) <==> descendants@.contains(p),
{
    let n = descendants.len();
    let mut out: Vec<u32> = Vec::new();
    let mut i: usize = 1;
    while i < n
        invariant
            n == descendants@.len(),
            1 <= i <= n,
            out@ == descendants@.subrange(1, i as int),
        decreases n - i,
    {
        out.push(descendants[i]);
        proof {
            assert(out@ =~= descendants@.subrange(1, i + 1));
        }
        i = i + 1;
    }
    out.push(descendants[0]);
    proof {
        assert(out@ =~= descendants@.subrange(1, n as int) + seq![descendants@[0]]);
        assert forall|p: u32| out@.contains(p) implies descendants@.contains(p) by {
            let i = choose|i: int| 0 <= i < out@.len() && out@[i] == p;
            if i < out@.len() - 1 {
                assert(descendants@[i + 1] == p);
            } else {
                assert(descendants@[0] == p);
            }
        }
        assert forall|p: u32| descendants@.contains(p) implies out@.contains(p) by {
            let i = choose|i: int| 0 <= i < descendants@.len() && descendants@[i] == p;
            if i == 0 {
                assert(out@[out@.len() - 1] == p);
            } else {
                assert(out@[i - 1] == p);
            }
        }
    }
    out
}

/// The full kill plan for a root under a snapshot: each reachable pid
/// exactly once, the root strictly last.  The root is planned even when
/// the snapshot has no entry for it — missing from the snapshot is not
/// the same as confirmed absent.
pub fn kill_plan(root: u32, map: &ParentMap) -> (r: Vec<u32>)
    requires
        map.wf(),
    ensures
        r@.len() >= 1,
        r@[r@.len() - 1] == root,
        forall|i: int| 0 <= i < r@.len() - 1 ==> r@[i] != root,
        forall|i: int, j: int| 0 <= i < j < r@.len() ==> r@[i] != r@[j],
        forall|p: u32| #[trigger] r@.contains(p) <==> reachable(map@, root, p),
{
    let descendants = expand_descendants(root, map);
    let plan = termination_order(&descendants);
    proof {
        assert(descendants@.contains(root)) by {
            assert(descendants@[0] == root);
        }
        assert forall|i: int, j: int| 0 <= i < j < plan@.len() implies plan@[i] != plan@[j] by {
            let d = descendants@;
            let n = d.len() as int;
            if j < n - 1 {
                assert(d[i + 1] != d[j + 1]);
            } else {
                assert(plan@[j] == d[0]);
                assert(d[i + 1] != d[0]);
            }
        }
    }
    plan
}

/// The overall verdict for one tree-kill call, from the root's outcome
/// alone: a terminated root is success with work done, an already-gone
/// root is success with nothing to do, and a failed root fails the call —
/// as an access-denied error when its diagnostic says so.
pub fn tree_verdict(root_outcome: &TerminationOutcome) -> (r: Result<bool, ProcessError>)
    ensures
        root_outcome is Terminated ==> r == Ok::<bool, ProcessError>(true),
        root_outcome is AlreadyGone ==> r == Ok::<bool, ProcessError>(false),
        root_outcome matches TerminationOutcome::Failed(m) ==> {
            &&& r is Err
            &&& has_substring(fold(m@), fold("access is denied"@)) ==> (r matches Err(
                ProcessError::AccessDenied(e),
            ) && e@ == m@)
            &&& !has_substring(fold(m@), fold("access is denied"@)) ==> (r matches Err(
                ProcessError::TerminationFailed(e),
            ) && e@ == m@)
        },
{
    match root_outcome {
        TerminationOutcome::Terminated => Ok(true),
        TerminationOutcome::AlreadyGone => Ok(false),
        TerminationOutcome::Failed(m) => {
            if contains_ignore_case(m.as_str(), "access is denied") {
                Err(ProcessError::AccessDenied(m.clone()))
            } else {
                Err(ProcessError::TerminationFailed(m.clone()))
            }
        },
    }
}

} // verus!
