use bist::report::{Severity, TestResult};
use bist::runner::Runner;
use bist::scons::Scons;

#[test]
fn insert_then_remove_returns_name_and_line() {
    let mut s = Scons::new();
    s.insert(0, "a".to_string());
    s.insert(1, "b".to_string());
    let (name, line) = s.remove(0, &TestResult::Pass);
    assert_eq!(name, "a");
    let line = line.unwrap();
    assert_eq!(line.severity, Severity::Pass);
    assert_eq!(line.text, "a OK");
    let (name2, line2) = s.remove(1, &TestResult::Branch(vec!["c".to_string()]));
    assert_eq!(name2, "b");
    assert!(line2.is_none());
}

#[test]
fn view_caps_at_ten_earliest_tasks() {
    let mut s = Scons::new();
    let mut id: u64 = 0;
    while id < 12 {
        s.insert(id, format!("task{}", id));
        id += 1;
    }
    let v = s.visible_names();
    assert_eq!(v.len(), 10);
    assert_eq!(v[0], "task0");
    assert_eq!(v[9], "task9");
}

#[test]
fn view_shrinks_with_removals() {
    let mut s = Scons::new();
    s.insert(3, "x".to_string());
    s.insert(7, "y".to_string());
    let (_, _) = s.remove(3, &TestResult::Pass);
    let v = s.visible_names();
    assert_eq!(v.len(), 1);
    assert_eq!(v[0], "y");
}

#[test]
fn spawn_assigns_increasing_ids() {
    let mut r = Runner::new();
    let root = "".to_string();
    let a = r.spawn(&root, &"a".to_string());
    let b = r.spawn(&root, &"b".to_string());
    let c = r.spawn(&root, &"c".to_string());
    assert_eq!(a, 0);
    assert_eq!(b, 1);
    assert_eq!(c, 2);
    assert_eq!(r.spawned_count(), 3);
    assert_eq!(r.in_flight_count(), 3);
    assert!(r.in_flight(0) && r.in_flight(1) && r.in_flight(2));
    assert!(!r.in_flight(3));
}

#[test]
fn spawn_records_resolved_paths() {
    let mut r = Runner::new();
    let eid = r.spawn(&"".to_string(), &"entry".to_string());
    assert_eq!(eid, 0);
    let _ = r.spawn(&"entry".to_string(), &"a".to_string());
    let v = r.visible_names();
    assert_eq!(v, vec!["entry".to_string(), "entry > a".to_string()]);
}

#[test]
fn default_runner_is_fresh() {
    let r = Runner::default();
    assert_eq!(r.spawned_count(), 0);
    assert_eq!(r.in_flight_count(), 0);
    assert!(r.succeeded());
}

#[test]
fn final_message_reflects_outcome() {
    let mut r = Runner::new();
    assert_eq!(r.final_message(), "All checks passed!");
    let id = r.spawn(&"".to_string(), &"entry".to_string());
    let _ = r.on_completion(id, TestResult::Fail("x".to_string()));
    assert_eq!(r.final_message(), "One or more checks failed");
}

#[test]
fn completion_expands_branch_and_tracks_failure() {
    let mut r = Runner::new();
    let eid = r.spawn(&"".to_string(), &"entry".to_string());
    let c = r.on_completion(
        eid,
        TestResult::Branch(vec!["A".to_string(), "B".to_string()]),
    );
    assert_eq!(c.path, "entry");
    assert!(c.line.is_none());
    assert_eq!(c.spawned, vec![1, 2]);
    assert_eq!(r.in_flight_count(), 2);
    assert!(!r.in_flight(eid));
    assert!(r.succeeded());

    let ca = r.on_completion(1, TestResult::Fail("x".to_string()));
    assert_eq!(ca.path, "entry > A");
    let line = ca.line.unwrap();
    assert_eq!(line.severity, Severity::Error);
    assert_eq!(line.text, "entry > A ERROR: x");
    assert!(!r.succeeded());

    let cb = r.on_completion(2, TestResult::Warn("odd".to_string()));
    let line = cb.line.unwrap();
    assert_eq!(line.severity, Severity::Warn);
    assert_eq!(line.text, "entry > B WARN: odd");
    assert_eq!(r.in_flight_count(), 0);
    assert!(!r.succeeded());
}
