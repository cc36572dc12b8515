use winproc::errors::ProcessError;
use winproc::hierarchy::ParentMap;
use winproc::strutil::contains_ignore_case;
use winproc::termination::{
    TerminationOutcome, classify_termination, termination_order, kill_plan, tree_verdict,
};

#[test]
fn classify_graceful_success() {
    let outcome = classify_termination(true, false, "");
    assert!(matches!(outcome, TerminationOutcome::Terminated));
}

#[test]
fn classify_forced_success() {
    let outcome = classify_termination(false, true, "");
    assert!(matches!(outcome, TerminationOutcome::Terminated));
}

#[test]
fn classify_not_found_is_already_gone() {
    // A pid that does not exist is the goal state, not a hard error.
    let outcome = classify_termination(
        false,
        false,
        "ERROR: The process \"999\" not found.",
    );
    assert!(matches!(outcome, TerminationOutcome::AlreadyGone));
    let verdict = tree_verdict(&outcome);
    assert!(matches!(verdict, Ok(false)), "already-gone must count as success");
}

#[test]
fn classify_no_tasks_is_already_gone() {
    let outcome = classify_termination(
        false,
        false,
        "INFO: No tasks running with the specified criteria.",
    );
    assert!(matches!(outcome, TerminationOutcome::AlreadyGone));
}

#[test]
fn classify_other_failure_keeps_text() {
    let outcome = classify_termination(false, false, "ERROR: Access is denied.");
    match outcome {
        TerminationOutcome::Failed(reason) => {
            assert_eq!(reason, "ERROR: Access is denied.");
        }
        other => panic!("expected a failure, got {:?}", other),
    }
}

#[test]
fn verdict_terminated_is_true() {
    assert!(matches!(tree_verdict(&TerminationOutcome::Terminated), Ok(true)));
}

#[test]
fn verdict_already_gone_is_false_not_error() {
    // A second kill of the same tree finds the root already gone and must
    // report Ok(false), never an error.
    assert!(matches!(tree_verdict(&TerminationOutcome::AlreadyGone), Ok(false)));
}

#[test]
fn verdict_access_denied_is_classified() {
    let verdict = tree_verdict(&TerminationOutcome::Failed(
        "ERROR: The process could not be terminated. Reason: Access is denied.".to_string(),
    ));
    match verdict {
        Err(ProcessError::AccessDenied(m)) => {
            assert!(m.contains("Access is denied"));
        }
        other => panic!("expected an access-denied error, got {:?}", other),
    }
}

#[test]
fn verdict_other_failure_is_termination_failed() {
    let verdict = tree_verdict(&TerminationOutcome::Failed("something else".to_string()));
    match verdict {
        Err(ProcessError::TerminationFailed(m)) => assert_eq!(m, "something else"),
        other => panic!("expected a termination failure, got {:?}", other),
    }
}

#[test]
fn order_puts_root_last() {
    let order = termination_order(&vec![1, 2, 3]);
    assert_eq!(order, vec![2, 3, 1]);
}

#[test]
fn order_of_single_root() {
    let order = termination_order(&vec![9]);
    assert_eq!(order, vec![9]);
}

#[test]
fn plan_scenario_children_before_root() {
    // Scenario: root 1, children 2 and 3, grandchild 4 under 3.  The
    // termination calls follow the plan in order, so recording the order
    // of the simulated calls shows the root's call strictly after every
    // descendant's call has returned.
    let mut map = ParentMap::new();
    map.insert(2, 1);
    map.insert(3, 1);
    map.insert(4, 3);
    let plan = kill_plan(1, &map);
    assert_eq!(plan.len(), 4);

    let mut observed: Vec<u32> = Vec::new();
    for pid in &plan {
        // The instrumented "termination call": it records and returns.
        observed.push(*pid);
    }
    let root_position = observed.iter().position(|p| *p == 1).unwrap();
    assert_eq!(root_position, observed.len() - 1, "root must be terminated last");
    for pid in [2u32, 3, 4] {
        let child_position = observed.iter().position(|p| *p == pid).unwrap();
        assert!(child_position < root_position, "child {} must precede the root", pid);
    }
}

#[test]
fn plan_for_missing_root_is_just_the_root() {
    // The root does not appear in the snapshot at all: it is still
    // planned, since missing from the snapshot is not confirmed absent.
    let map = ParentMap::new();
    let plan = kill_plan(42, &map);
    assert_eq!(plan, vec![42]);
}

#[test]
fn second_kill_of_gone_tree_reports_false() {
    // After a successful kill the whole tree is gone; the snapshot no
    // longer lists the root, the kill utility reports it missing, and
    // the verdict is Ok(false).
    let map = ParentMap::new();
    let plan = kill_plan(1234, &map);
    assert_eq!(plan, vec![1234]);
    let outcome = classify_termination(false, false, "ERROR: The process \"1234\" not found.");
    assert!(matches!(tree_verdict(&outcome), Ok(false)));
}

#[test]
fn contains_ignore_case_matches() {
    assert!(contains_ignore_case("Reason: ACCESS IS DENIED.", "access is denied"));
    assert!(!contains_ignore_case("some other failure", "access is denied"));
}
