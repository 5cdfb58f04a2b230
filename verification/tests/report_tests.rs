use bist::report::{join_path, res_line, Severity, TestResult};

#[test]
fn ok_line() {
    let r = res_line(&"t".to_string(), &TestResult::Pass);
    let line = r.unwrap();
    assert_eq!(line.severity, Severity::Pass);
    assert_eq!(line.text, "t OK");
}

#[test]
fn warn_line() {
    let r = res_line(&"t".to_string(), &TestResult::Warn("low disk".to_string()));
    let line = r.unwrap();
    assert_eq!(line.severity, Severity::Warn);
    assert_eq!(line.text, "t WARN: low disk");
}

#[test]
fn error_line() {
    let r = res_line(&"t".to_string(), &TestResult::Fail("boom".to_string()));
    let line = r.unwrap();
    assert_eq!(line.severity, Severity::Error);
    assert_eq!(line.text, "t ERROR: boom");
}

#[test]
fn empty_branch_line() {
    let r = res_line(&"t".to_string(), &TestResult::Branch(vec![]));
    let line = r.unwrap();
    assert_eq!(line.severity, Severity::Empty);
    assert_eq!(line.text, "t EMPTY");
}

#[test]
fn nonempty_branch_is_silent() {
    let r = res_line(&"t".to_string(), &TestResult::Branch(vec!["a".to_string()]));
    assert!(r.is_none());
    let r2 = res_line(
        &"t".to_string(),
        &TestResult::Branch(vec!["a".to_string(), "b".to_string()]),
    );
    assert!(r2.is_none());
}

#[test]
fn entrypoint_keeps_own_name() {
    let p = join_path(&"".to_string(), &"entry".to_string());
    assert_eq!(p, "entry");
}

#[test]
fn child_path_joins_with_separator() {
    let p = join_path(&"entry".to_string(), &"a".to_string());
    assert_eq!(p, "entry > a");
}

#[test]
fn nesting_adds_one_separator_per_level() {
    let p1 = join_path(&"".to_string(), &"a".to_string());
    let p2 = join_path(&p1, &"b".to_string());
    let p3 = join_path(&p2, &"c".to_string());
    assert_eq!(p3, "a > b > c");
    assert_eq!(p3.matches(" > ").count(), 2);
}
