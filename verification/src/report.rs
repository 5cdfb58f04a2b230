//! The outcome reported by a completed test case, and the transcript line
//! that the completion produces.

use vstd::prelude::*;
use vstd::string::*;

verus! {

/// How a transcript line is classified. The rendering layer maps each class
/// to a color: `Pass` to a positive color, `Warn` and `Empty` to a caution
/// color, `Error` to a failure color.
#[derive(Clone, Copy, PartialEq, Eq, Structural, Debug)]
pub enum Severity {
    /// The case passed with no remarks.
    Pass,
    /// The case passed but attached a warning.
    Warn,
    /// The case failed.
    Error,
    /// The case branched into zero children.
    Empty,
}

/// The result of one completed test case: exactly one variant per completion.
pub enum TestResult {
    /// The case passed with no remarks.
    Pass,
    /// The case passed but attaches a human-readable warning.
    Warn(String),
    /// The case failed; the overall run is reported as failed.
    Fail(String),
    /// The case passed and delegates further checking to child cases,
    /// listed by their declared (unresolved) names in spawn order.
    Branch(Vec<String>),
}

/// One permanent line of the run's transcript.
pub struct TranscriptLine {
    /// The class of the line, which decides its color.
    pub severity: Severity,
    /// The text of the line.
    pub text: String,
}

/// Whether a completed task with result `res` appends a line to the
/// transcript: every result does, except a branch with at least one child,
/// whose children will each produce their own lines.
pub open spec fn emits(res: TestResult) -> bool {
    !(res matches TestResult::Branch(ns) && ns@.len() > 0)
}

/// The severity of the line a result produces, if it produces one.
pub open spec fn spec_sev(res: TestResult) -> Severity {
    match res {
        TestResult::Pass => Severity::Pass,
        TestResult::Warn(_) => Severity::Warn,
        TestResult::Fail(_) => Severity::Error,
        TestResult::Branch(_) => Severity::Empty,
    }
}

/// The text of the line a result produces, if it produces one, for a task
/// whose resolved path name is `name`.
pub open spec fn spec_text(name: Seq<char>, res: TestResult) -> Seq<char> {
    match res {
        TestResult::Pass => name + " OK"@,
        TestResult::Warn(m) => name + " WARN: "@ + m@,
        TestResult::Fail(m) => name + " ERROR: "@ + m@,
        TestResult::Branch(_) => name + " EMPTY"@,
    }
}

/// Compute the transcript line for a completed task whose resolved path name
/// is `name` and whose result is `res`: `"<name> OK"`, `"<name> WARN: <msg>"`,
/// `"<name> ERROR: <msg>"`, or `"<name> EMPTY"` for a branch with zero
/// children; a branch with children emits nothing.
pub fn res_line(name: &String, res: &TestResult) -> (r: Option<TranscriptLine>)
    ensures
        r is Some <==> emits(*res),
        r matches Some(l) ==> l.severity == spec_sev(*res) && l.text@ == spec_text(name@, *res),
{
    match res {
        TestResult::Pass => Some(
            TranscriptLine { severity: Severity::Pass, text: name.clone().concat(" OK") },
        ),
        TestResult::Warn(m) => Some(
            TranscriptLine {
                severity: Severity::Warn,
                text: name.clone().concat(" WARN: ").concat(m.as_str()),
            },
        ),
        TestResult::Fail(m) => Some(
            TranscriptLine {
                severity: Severity::Error,
                text: name.clone().concat(" ERROR: ").concat(m.as_str()),
            },
        ),
        TestResult::Branch(ns) => {
            if ns.len() == 0 {
                Some(TranscriptLine { severity: Severity::Empty, text: name.clone().concat(" EMPTY") })
            } else {
                None
            }
        },
    }
}

/// A task's resolved path name: its own declared name if it is the
/// entrypoint (empty parent path), else the parent's resolved path name,
/// the fixed separator `" > "`, and its own declared name.
pub open spec fn spec_join(parent: Seq<char>, name: Seq<char>) -> Seq<char> {
    if parent.len() == 0 {
        name
    } else {
        parent + " > "@ + name
    }
}

/// Resolve a task's path name from its parent's resolved path name and its
/// own declared name.
pub fn join_path(parent: &String, name: &String) -> (r: String)
    ensures
        r@ == spec_join(parent@, name@),
{
    if parent.as_str().unicode_len() == 0 {
        name.clone()
    } else {
        parent.clone().concat(" > ").concat(name.as_str())
    }
}

} // verus!
