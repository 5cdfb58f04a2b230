use bist::report::Severity;
use bist::runner::run_tree;
use bist::tree::{CaseOutcome, CaseTree};

fn leaf(name: &str, sub: CaseOutcome) -> CaseTree {
    CaseTree { name: name.to_string(), sub }
}

fn branch(name: &str, children: Vec<CaseTree>) -> CaseTree {
    CaseTree { name: name.to_string(), sub: CaseOutcome::Branch(children) }
}

#[test]
fn entry_ok_succeeds_with_one_line() {
    let report = run_tree(leaf("entry", CaseOutcome::Pass), &vec![]);
    assert!(report.success);
    assert_eq!(report.transcript.len(), 1);
    assert_eq!(report.transcript[0].text, "entry OK");
    assert_eq!(report.transcript[0].severity, Severity::Pass);
}

#[test]
fn failing_child_fails_run_and_names_both_children() {
    let entry = branch(
        "entry",
        vec![
            leaf("A", CaseOutcome::Fail("x".to_string())),
            leaf("B", CaseOutcome::Pass),
        ],
    );
    let report = run_tree(entry, &vec![]);
    assert!(!report.success);
    assert_eq!(report.transcript.len(), 2);
    let texts: Vec<&str> = report.transcript.iter().map(|l| l.text.as_str()).collect();
    assert!(texts.contains(&"entry > A ERROR: x"));
    assert!(texts.contains(&"entry > B OK"));
    for t in &texts {
        assert_ne!(*t, "entry OK");
    }
}

#[test]
fn completion_order_follows_schedule() {
    let entry = branch(
        "entry",
        vec![
            leaf("A", CaseOutcome::Fail("x".to_string())),
            leaf("B", CaseOutcome::Pass),
        ],
    );
    // After the entrypoint completes, pick the second in-flight task first.
    let report = run_tree(entry, &vec![0, 1]);
    assert!(!report.success);
    assert_eq!(report.transcript[0].text, "entry > B OK");
    assert_eq!(report.transcript[1].text, "entry > A ERROR: x");
}

#[test]
fn empty_branch_succeeds_and_is_flagged() {
    let report = run_tree(branch("entry", vec![]), &vec![]);
    assert!(report.success);
    assert_eq!(report.transcript.len(), 1);
    assert_eq!(report.transcript[0].text, "entry EMPTY");
    assert_eq!(report.transcript[0].severity, Severity::Empty);
}

#[test]
fn three_level_nesting_builds_full_path() {
    let entry = branch("a", vec![branch("b", vec![leaf("c", CaseOutcome::Pass)])]);
    let report = run_tree(entry, &vec![]);
    assert!(report.success);
    assert_eq!(report.transcript.len(), 1);
    assert_eq!(report.transcript[0].text, "a > b > c OK");
    assert_eq!(report.transcript[0].text.matches(" > ").count(), 2);
}

#[test]
fn one_line_per_leaf_outcome() {
    // Leaves: the warning, the failure, the pass, and the empty branch;
    // the two non-empty branches emit nothing.
    let entry = branch(
        "entry",
        vec![
            leaf("w", CaseOutcome::Warn("careful".to_string())),
            leaf("f", CaseOutcome::Fail("broken".to_string())),
            branch(
                "br",
                vec![leaf("x", CaseOutcome::Pass), branch("y", vec![])],
            ),
        ],
    );
    let report = run_tree(entry, &vec![]);
    assert!(!report.success);
    assert_eq!(report.transcript.len(), 4);
    let texts: Vec<&str> = report.transcript.iter().map(|l| l.text.as_str()).collect();
    assert!(texts.contains(&"entry > w WARN: careful"));
    assert!(texts.contains(&"entry > f ERROR: broken"));
    assert!(texts.contains(&"entry > br > x OK"));
    assert!(texts.contains(&"entry > br > y EMPTY"));
}

#[test]
fn warnings_and_branches_do_not_fail_the_run() {
    let entry = branch(
        "entry",
        vec![
            leaf("w", CaseOutcome::Warn("minor".to_string())),
            branch("br", vec![leaf("x", CaseOutcome::Pass)]),
            branch("e", vec![]),
        ],
    );
    let report = run_tree(entry, &vec![]);
    assert!(report.success);
    assert_eq!(report.transcript.len(), 3);
}

#[test]
fn run_drains_all_tasks() {
    let entry = branch(
        "entry",
        vec![
            branch("a", vec![leaf("x", CaseOutcome::Pass), leaf("y", CaseOutcome::Pass)]),
            leaf("b", CaseOutcome::Pass),
        ],
    );
    // entry, a, b, x, y: five tasks spawned in all.
    let report = run_tree(entry, &vec![]);
    assert_eq!(report.runner.in_flight_count(), 0);
    assert_eq!(report.runner.spawned_count(), 5);
    assert!(report.runner.succeeded());
}

#[test]
fn schedule_changes_order_not_outcome() {
    let make = || {
        branch(
            "entry",
            vec![
                leaf("A", CaseOutcome::Pass),
                leaf("B", CaseOutcome::Fail("x".to_string())),
                leaf("C", CaseOutcome::Warn("w".to_string())),
            ],
        )
    };
    let schedules: Vec<Vec<u64>> = vec![vec![], vec![0, 2, 1], vec![0, 1, 1], vec![5, 4, 3, 2, 1]];
    for sched in &schedules {
        let report = run_tree(make(), sched);
        assert!(!report.success);
        assert_eq!(report.transcript.len(), 3);
        let mut texts: Vec<String> = report.transcript.iter().map(|l| l.text.clone()).collect();
        texts.sort();
        assert_eq!(
            texts,
            vec![
                "entry > A OK".to_string(),
                "entry > B ERROR: x".to_string(),
                "entry > C WARN: w".to_string(),
            ],
        );
    }
}
