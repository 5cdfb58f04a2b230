//! The scheduler: it assigns every spawned test case a fresh task id and a
//! resolved path name, registers it with the progress tracker, interprets
//! each completion in the order the cases happen to finish, expands branches
//! into newly spawned children, and aggregates the overall outcome of the
//! run.

use vstd::prelude::*;
use vstd::set_lib::{lemma_int_range, lemma_subset_equality, set_int_range};
use vstd::string::*;

use crate::report::{emits, spec_join, spec_sev, spec_text, TestResult, TranscriptLine};
use crate::report::join_path;
use crate::scons::Scons;
use crate::tree::{
    any_fail_trees, has_fail, leaf_count, leaf_count_o, leaf_count_trees, lemma_node_sum_ge_len,
    lemma_trees_take_all, lemma_trees_take_step, node_count, node_sum_trees,
    CaseOutcome, CaseTree,
};

verus! {

/// The scheduler. It owns the progress tracker, the next-id counter and the
/// errored flag; the concurrent execution of the spawned cases themselves is
/// the caller's concern, which hands completions back one at a time.
pub struct Runner {
    /// The progress tracker holding the in-flight tasks.
    pub scons: Scons,
    /// The next task id to assign; also the number of tasks spawned so far.
    pub n_spawned: u64,
    /// Whether any completed task has failed. Set the first time a task
    /// reports a failure and never reset.
    pub errored: bool,
    /// The ids of the tasks whose completion has been processed.
    pub removed: Ghost<Set<int>>,
}

impl Runner {
    /// Well-formedness: ids are assigned monotonically from 0, every id ever
    /// assigned is either still in flight or removed (never both), and each
    /// removed id was removed exactly once.
    pub open spec fn wf(&self) -> bool {
        &&& self.scons.wf()
        &&& forall|i: int|
            0 <= i < self.scons.entries@.len() ==> (#[trigger] self.scons.entries@[i]).id
                < self.n_spawned
        &&& self.removed@.finite()
        &&& forall|x: int| self.removed@.contains(x) ==> 0 <= x < self.n_spawned
        &&& forall|i: int|
            0 <= i < self.scons.entries@.len() ==> !self.removed@.contains(
                (#[trigger] self.scons.entries@[i]).id as int,
            )
        &&& self.removed@.len() + self.scons.entries@.len() == self.n_spawned
    }

    /// Create a new runner: nothing spawned, nothing in flight, not errored.
    pub fn new() -> (r: Runner)
        ensures
            r.wf(),
            r.n_spawned == 0,
            r.scons.entries@.len() == 0,
            !r.errored,
            r.removed@ == Set::<int>::empty(),
    {
        Runner { scons: Scons::new(), n_spawned: 0, errored: false, removed: Ghost(Set::empty()) }
    }

    /// Allocate a fresh task id: ids start at 0 and increase by 1 per spawn,
    /// so no id is ever reused.
    fn next_id(&mut self) -> (id: u64)
        requires
            old(self).n_spawned < u64::MAX,
        ensures
            id == old(self).n_spawned,
            final(self).n_spawned == old(self).n_spawned + 1,
            final(self).scons == old(self).scons,
            final(self).errored == old(self).errored,
            final(self).removed == old(self).removed,
    {
        let id = self.n_spawned;
        self.n_spawned = self.n_spawned + 1;
        id
    }

    /// Spawn one test case: resolve its path name from its parent's resolved
    /// path and its own declared name, assign it the next id, and register it
    /// as in flight. Returns the assigned id, with which the caller tags the
    /// case's eventual completion.
    pub fn spawn(&mut self, parent: &String, name: &String) -> (id: u64)
        requires
            old(self).wf(),
            old(self).n_spawned < u64::MAX,
        ensures
            final(self).wf(),
            id == old(self).n_spawned,
            final(self).n_spawned == old(self).n_spawned + 1,
            final(self).scons.entries@.len() == old(self).scons.entries@.len() + 1,
            forall|i: int|
                0 <= i < old(self).scons.entries@.len() ==> final(self).scons.entries@[i] == old(
                    self,
                ).scons.entries@[i],
            final(self).scons.entries@.last().id == id,
            final(self).scons.entries@.last().name@ == spec_join(parent@, name@),
            final(self).errored == old(self).errored,
            final(self).removed == old(self).removed,
    {
        let path = join_path(parent, name);
        let id = self.next_id();
        self.scons.insert(id, path);
        id
    }

    /// Whether the run has succeeded so far: no completed task has failed.
    pub fn succeeded(&self) -> (b: bool)
        ensures
            b == !self.errored,
    {
        !self.errored
    }

    /// The run-level message: the confirmation emitted on success, or the
    /// generic summary reported when one or more checks failed (the
    /// individual failures are already visible in the transcript).
    pub fn final_message(&self) -> (m: String)
        ensures
            self.errored ==> m@ == "One or more checks failed"@,
            !self.errored ==> m@ == "All checks passed!"@,
    {
        if self.errored {
            String::from_str("One or more checks failed")
        } else {
            String::from_str("All checks passed!")
        }
    }

    /// The number of tasks spawned so far.
    pub fn spawned_count(&self) -> (n: u64)
        ensures
            n == self.n_spawned,
    {
        self.n_spawned
    }

    /// The number of tasks currently in flight.
    pub fn in_flight_count(&self) -> (n: usize)
        ensures
            n == self.scons.entries@.len(),
    {
        self.scons.entries.len()
    }

    /// Whether a task with id `id` is currently in flight.
    pub fn in_flight(&self, id: u64) -> (b: bool)
        ensures
            b == self.scons.contains(id),
    {
        let mut i: usize = 0;
        while i < self.scons.entries.len()
            invariant
                0 <= i <= self.scons.entries@.len(),
                forall|j: int| 0 <= j < i ==> (#[trigger] self.scons.entries@[j]).id != id,
            decreases self.scons.entries@.len() - i,
        {
            if self.scons.entries[i].id == id {
                return true;
            }
            i += 1;
        }
        false
    }

    /// The live view: the path names of up to the first 10 in-flight tasks.
    pub fn visible_names(&self) -> (v: Vec<String>)
        ensures
            v@.len() == if self.scons.entries@.len() < 10 {
                self.scons.entries@.len()
            } else {
                10
            },
            forall|i: int| 0 <= i < v@.len() ==> v@[i] == self.scons.entries@[i].name,
    {
        self.scons.visible_names()
    }
}

/// What the scheduler did in response to one completion: the completed
/// task's resolved path name, the transcript line the completion produces
/// (if any), and the ids assigned to the children spawned for a branch, in
/// the order of the branch's child list.
pub struct Completion {
    /// The completed task's resolved path name.
    pub path: String,
    /// The transcript line to append, if the completion produces one.
    pub line: Option<TranscriptLine>,
    /// The ids of the children spawned for a branch result, in order.
    pub spawned: Vec<u64>,
}

impl Runner {
    /// Process one completion: look up and remove the task's path name by
    /// id, compute the transcript line, record a failure in the errored
    /// flag, and spawn every child of a branch under the completed task's
    /// resolved path, assigning ids in the order of the child list.
    pub fn on_completion(&mut self, id: u64, res: TestResult) -> (c: Completion)
        requires
            old(self).wf(),
            old(self).scons.contains(id),
            res matches TestResult::Branch(ns) ==> old(self).n_spawned + ns@.len() <= u64::MAX,
        ensures
            final(self).wf(),
            c.path == old(self).scons.entries@[old(self).scons.idx(id)].name,
            c.line is Some <==> emits(res),
            c.line matches Some(l) ==> l.severity == spec_sev(res) && l.text@ == spec_text(
                c.path@,
                res,
            ),
            final(self).errored == (old(self).errored || res matches TestResult::Fail(_)),
            final(self).removed@ == old(self).removed@.insert(id as int),
            c.spawned@.len() == (match res {
                TestResult::Branch(ns) => ns@.len(),
                _ => 0nat,
            }),
            forall|k: int| 0 <= k < c.spawned@.len() ==> #[trigger] c.spawned@[k] == old(
                self,
            ).n_spawned + k,
            final(self).n_spawned == old(self).n_spawned + c.spawned@.len(),
            final(self).scons.entries@.len() == old(self).scons.entries@.len() - 1
                + c.spawned@.len(),
            forall|i: int|
                0 <= i < old(self).scons.entries@.len() - 1 ==> (#[trigger] final(self).scons.entries@[i])
                    == old(self).scons.entries@.remove(old(self).scons.idx(id))[i],
            res matches TestResult::Branch(ns) ==> (forall|i: int|
                old(self).scons.entries@.len() - 1 <= i < final(self).scons.entries@.len()
                    ==> (#[trigger] final(self).scons.entries@[i]).id == old(self).n_spawned
                        + (i - (old(self).scons.entries@.len() - 1))
                    && final(self).scons.entries@[i].name@ == spec_join(
                        c.path@,
                        ns@[i - (old(self).scons.entries@.len() - 1)]@,
                    )),
    {
        let ghost prev = *self;
        let (path, line) = self.scons.remove(id, &res);
        proof {
            self.removed@ = self.removed@.insert(id as int);
            let w = prev.scons.idx(id);
            assert(0 <= w < prev.scons.entries@.len() && prev.scons.entries@[w].id == id);
            assert forall|i: int| 0 <= i < self.scons.entries@.len() implies (
            #[trigger] self.scons.entries@[i]).id < self.n_spawned && !self.removed@.contains(
                self.scons.entries@[i].id as int,
            ) by {
                let j = if i < w {
                    i
                } else {
                    i + 1
                };
                assert(self.scons.entries@[i] == prev.scons.entries@[j]);
                prev.scons.lemma_idx_distinct(j, w);
            }
            assert(!prev.removed@.contains(id as int));
            assert(self.removed@.len() == prev.removed@.len() + 1);
        }
        match &res {
            TestResult::Fail(_) => {
                self.errored = true;
            },
            _ => {},
        }
        let mut spawned: Vec<u64> = Vec::new();
        let ghost mid = *self;
        match res {
            TestResult::Branch(names) => {
                let mut k: usize = 0;
                while k < names.len()
                    invariant
                        self.wf(),
                        k == spawned@.len(),
                        k <= names@.len(),
                        mid.n_spawned + names@.len() <= u64::MAX,
                        self.n_spawned == mid.n_spawned + k,
                        self.errored == mid.errored,
                        self.removed == mid.removed,
                        self.scons.entries@.len() == mid.scons.entries@.len() + k,
                        forall|i: int|
                            0 <= i < mid.scons.entries@.len() ==> #[trigger] self.scons.entries@[i]
                                == mid.scons.entries@[i],
                        forall|t: int|
                            0 <= t < k ==> #[trigger] spawned@[t] == mid.n_spawned + t,
                        forall|i: int|
                            mid.scons.entries@.len() <= i < self.scons.entries@.len() ==> (
                            #[trigger] self.scons.entries@[i]).id == mid.n_spawned + (i
                                - mid.scons.entries@.len()) && self.scons.entries@[i].name@
                                == spec_join(path@, names@[i - mid.scons.entries@.len()]@),
                    decreases names@.len() - k,
                {
                    let cid = self.spawn(&path, &names[k]);
                    spawned.push(cid);
                    k += 1;
                }
            },
            _ => {},
        }
        Completion { path, line, spawned }
    }
}

impl Default for Runner {
    /// A new runner with default settings.
    fn default() -> (r: Runner)
        ensures
            r.wf(),
            r.n_spawned == 0,
            r.scons.entries@.len() == 0,
            !r.errored,
    {
        Runner::new()
    }
}

/// One task still in flight during a run over a data tree: its assigned id
/// and the tree whose outcome it will report.
pub struct PendingTask {
    /// The task's assigned id.
    pub id: u64,
    /// The tree the task runs.
    pub tree: CaseTree,
}

/// The leaf outcomes still to be reached by the in-flight tasks, summed.
pub open spec fn pending_leaves(s: Seq<PendingTask>) -> nat
    decreases s,
{
    if s.len() <= 0 {
        0nat
    } else {
        leaf_count_o(s[0].tree.sub) + pending_leaves(s.subrange(1, s.len() as int))
    }
}

/// The tasks spawned by each in-flight tree, summed.
pub open spec fn pending_nodes(s: Seq<PendingTask>) -> nat
    decreases s,
{
    if s.len() <= 0 {
        0nat
    } else {
        node_count(s[0].tree) + pending_nodes(s.subrange(1, s.len() as int))
    }
}

/// Whether any in-flight tree still holds a failure.
pub open spec fn pending_fail(s: Seq<PendingTask>) -> bool
    decreases s,
{
    if s.len() <= 0 {
        false
    } else {
        has_fail(s[0].tree) || pending_fail(s.subrange(1, s.len() as int))
    }
}

/// Appending one in-flight task adds its tree's contribution to each sum.
proof fn lemma_pending_push(s: Seq<PendingTask>, t: PendingTask)
    ensures
        pending_leaves(s.push(t)) == pending_leaves(s) + leaf_count_o(t.tree.sub),
        pending_nodes(s.push(t)) == pending_nodes(s) + node_count(t.tree),
        pending_fail(s.push(t)) == (pending_fail(s) || has_fail(t.tree)),
    decreases s.len(),
{
    let p = s.push(t);
    assert(pending_leaves(p) == leaf_count_o(p[0].tree.sub) + pending_leaves(
        p.subrange(1, p.len() as int),
    ));
    assert(pending_nodes(p) == node_count(p[0].tree) + pending_nodes(p.subrange(1, p.len() as int)));
    assert(pending_fail(p) == (has_fail(p[0].tree) || pending_fail(p.subrange(1, p.len() as int))));
    if s.len() == 0 {
        assert(p[0] == t);
        assert(p.subrange(1, 1) =~= Seq::<PendingTask>::empty());
    } else {
        assert(p[0] == s[0]);
        assert(p.subrange(1, s.len() as int + 1) =~= s.subrange(1, s.len() as int).push(t));
        lemma_pending_push(s.subrange(1, s.len() as int), t);
    }
}

/// Removing one in-flight task takes its tree's contribution out of each sum.
proof fn lemma_pending_remove(s: Seq<PendingTask>, i: int)
    requires
        0 <= i < s.len(),
    ensures
        pending_leaves(s) == pending_leaves(s.remove(i)) + leaf_count_o(s[i].tree.sub),
        pending_nodes(s) == pending_nodes(s.remove(i)) + node_count(s[i].tree),
        pending_fail(s) == (pending_fail(s.remove(i)) || has_fail(s[i].tree)),
    decreases i,
{
    if i == 0 {
        assert(s.remove(0) =~= s.subrange(1, s.len() as int));
    } else {
        assert(s.remove(i)[0] == s[0]);
        assert(s.remove(i).subrange(1, s.len() - 1) =~= s.subrange(1, s.len() as int).remove(
            i - 1,
        ));
        lemma_pending_remove(s.subrange(1, s.len() as int), i - 1);
    }
}

/// Every in-flight tree spawns at least its own case.
proof fn lemma_pending_nodes_ge_len(s: Seq<PendingTask>)
    ensures
        pending_nodes(s) >= s.len(),
    decreases s.len(),
{
    if s.len() > 0 {
        let t = s.subrange(1, s.len() as int);
        lemma_pending_nodes_ge_len(t);
        assert(pending_nodes(s) == node_count(s[0].tree) + pending_nodes(t));
        assert(node_count(s[0].tree) >= 1);
    }
}

/// The result a case of a data tree reports on completion: the same variant
/// as its outcome, with a branch's children listed by their declared names.
fn result_of(o: &CaseOutcome) -> (r: TestResult)
    ensures
        *o matches CaseOutcome::Pass ==> r matches TestResult::Pass,
        *o matches CaseOutcome::Warn(m) ==> (r matches TestResult::Warn(w) && w == m),
        *o matches CaseOutcome::Fail(m) ==> (r matches TestResult::Fail(w) && w == m),
        *o matches CaseOutcome::Branch(cs) ==> (r matches TestResult::Branch(ns) && ns@.len()
            == cs@.len() && forall|i: int|
            0 <= i < cs@.len() ==> ns@[i] == (#[trigger] cs@[i]).name),
{
    match o {
        CaseOutcome::Pass => TestResult::Pass,
        CaseOutcome::Warn(m) => TestResult::Warn(m.clone()),
        CaseOutcome::Fail(m) => TestResult::Fail(m.clone()),
        CaseOutcome::Branch(cs) => {
            let mut ns: Vec<String> = Vec::new();
            let mut i: usize = 0;
            while i < cs.len()
                invariant
                    0 <= i <= cs@.len(),
                    ns@.len() == i,
                    forall|j: int| 0 <= j < i ==> ns@[j] == (#[trigger] cs@[j]).name,
                decreases cs@.len() - i,
            {
                ns.push(cs[i].name.clone());
                i += 1;
            }
            TestResult::Branch(ns)
        },
    }
}

/// A whole run reduced to its observable outcome: whether it succeeded, the
/// transcript lines in the order they were emitted, and the runner's final
/// state.
pub struct RunReport {
    /// Whether the run succeeded: no case anywhere in the tree failed.
    pub success: bool,
    /// The permanent transcript, in emission order.
    pub transcript: Vec<TranscriptLine>,
    /// The runner's final state: nothing left in flight.
    pub runner: Runner,
}

/// Run a suite whose tree of outcomes is given as data, beginning with
/// `entry` as the entrypoint. Cases complete in an order the caller does not
/// control; `schedule` stands for that arrival order, picking at each step
/// which in-flight task completes next (taken modulo the number in flight;
/// an exhausted schedule picks the earliest-spawned task). The run succeeds
/// exactly when no case anywhere in the tree fails, and emits one transcript
/// line per leaf outcome reached, whatever the schedule.
pub fn run_tree(entry: CaseTree, schedule: &Vec<u64>) -> (r: RunReport)
    requires
        node_count(entry) <= u64::MAX,
    ensures
        r.success == !has_fail(entry),
        r.runner.errored == has_fail(entry),
        r.transcript@.len() == leaf_count(entry),
        r.runner.wf(),
        r.runner.scons.entries@.len() == 0,
        r.runner.n_spawned == node_count(entry),
{
    let ghost entry0 = entry;
    let mut runner = Runner::new();
    let empty_parent = String::new();
    let eid = runner.spawn(&empty_parent, &entry.name);
    let mut pending: Vec<PendingTask> = Vec::new();
    pending.push(PendingTask { id: eid, tree: entry });
    proof {
        lemma_pending_push(Seq::empty(), PendingTask { id: eid, tree: entry0 });
    }
    let mut transcript: Vec<TranscriptLine> = Vec::new();
    let mut k: usize = 0;
    while pending.len() > 0
        invariant
            runner.wf(),
            pending@.len() == runner.scons.entries@.len(),
            forall|i: int|
                0 <= i < pending@.len() ==> (#[trigger] pending@[i]).id
                    == runner.scons.entries@[i].id,
            transcript@.len() + pending_leaves(pending@) == leaf_count(entry0),
            runner.n_spawned + pending_nodes(pending@) == node_count(entry0) + pending@.len(),
            (runner.errored || pending_fail(pending@)) == has_fail(entry0),
            node_count(entry0) <= u64::MAX,
        decreases node_count(entry0) - runner.n_spawned, pending@.len(),
    {
        proof {
            lemma_pending_nodes_ge_len(pending@);
        }
        let pick: usize;
        if k < schedule.len() {
            let choice = schedule[k];
            k = k + 1;
            pick = (choice % (pending.len() as u64)) as usize;
        } else {
            pick = 0;
        }
        let ghost p0 = pending@;
        proof {
            lemma_pending_remove(p0, pick as int);
        }
        let task = pending.remove(pick);
        let ghost p1 = pending@;
        let res = result_of(&task.tree.sub);
        proof {
            lemma_pending_nodes_ge_len(p1);
            assert(runner.scons.entries@[pick as int].id == task.id);
            assert(runner.scons.contains(task.id));
            let w = runner.scons.idx(task.id);
            if w != pick as int {
                runner.scons.lemma_idx_distinct(w, pick as int);
            }
            assert(w == pick as int);
            match &task.tree.sub {
                CaseOutcome::Branch(cs) => {
                    lemma_node_sum_ge_len(cs@);
                    assert(node_count(task.tree) == 1 + node_sum_trees(cs@));
                },
                _ => {},
            }
        }
        let ghost rpre = runner;
        let c = runner.on_completion(task.id, res);
        match c.line {
            Some(l) => transcript.push(l),
            None => {},
        }
        proof {
            assert forall|i: int| 0 <= i < p1.len() implies (#[trigger] p1[i]).id
                == runner.scons.entries@[i].id by {
                let j = if i < pick as int {
                    i
                } else {
                    i + 1
                };
                assert(p1[i] == p0[j]);
                assert(runner.scons.entries@[i] == rpre.scons.entries@.remove(pick as int)[i]);
            }
        }
        match task.tree.sub {
            CaseOutcome::Branch(children) => {
                let ghost orig = children@;
                let ghost r1 = runner;
                let ghost t1 = transcript@;
                let mut rest = children;
                let total: usize = rest.len();
                let mut j: usize = 0;
                while rest.len() > 0
                    invariant
                        total == orig.len(),
                        j + rest@.len() == orig.len(),
                        rest@ == orig.subrange(j as int, orig.len() as int),
                        c.spawned@.len() == orig.len(),
                        j <= orig.len(),
                        runner == r1,
                        transcript@ == t1,
                        pending@.len() == p1.len() + j,
                        forall|i: int| 0 <= i < p1.len() ==> #[trigger] pending@[i] == p1[i],
                        forall|i: int|
                            p1.len() <= i < pending@.len() ==> (#[trigger] pending@[i]).id
                                == c.spawned@[i - p1.len()] && pending@[i].tree == orig[i
                                - p1.len()],
                        pending_leaves(pending@) == pending_leaves(p1) + leaf_count_trees(
                            orig.subrange(0, j as int),
                        ),
                        pending_nodes(pending@) == pending_nodes(p1) + node_sum_trees(
                            orig.subrange(0, j as int),
                        ),
                        pending_fail(pending@) == (pending_fail(p1) || any_fail_trees(
                            orig.subrange(0, j as int),
                        )),
                    decreases rest@.len(),
                {
                    proof {
                        lemma_trees_take_step(orig, j as int);
                        assert(rest@[0] == orig[j as int]);
                    }
                    let child = rest.remove(0);
                    proof {
                        lemma_pending_push(
                            pending@,
                            PendingTask { id: c.spawned@[j as int], tree: child },
                        );
                        assert(rest@ =~= orig.subrange(j + 1, orig.len() as int));
                    }
                    pending.push(PendingTask { id: c.spawned[j], tree: child });
                    j = j + 1;
                }
                proof {
                    lemma_trees_take_all(orig);
                    assert(orig.subrange(0, orig.len() as int) =~= orig);
                }
            },
            _ => {},
        }
    }
    let success = runner.succeeded();
    RunReport { success, transcript, runner }
}

/// Each task id is handed out exactly once and processed exactly once: once
/// a run has drained (nothing left in flight), the processed ids are exactly
/// the assigned ids `0 .. n_spawned`, each removed from the in-flight set
/// precisely when its completion was handled.
pub proof fn lemma_each_id_removed_once(r: Runner)
    requires
        r.wf(),
        r.scons.entries@.len() == 0,
    ensures
        r.removed@ =~= set_int_range(0, r.n_spawned as int),
{
    lemma_int_range(0, r.n_spawned as int);
    lemma_subset_equality(r.removed@, set_int_range(0, r.n_spawned as int));
}

} // verus!
