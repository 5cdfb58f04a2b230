//! The progress tracker: the ordered set of currently-in-flight task path
//! names, keyed by task id, together with the transcript-line bookkeeping
//! performed when a task completes.

use vstd::prelude::*;

use crate::report::{emits, res_line, spec_sev, spec_text, TestResult, TranscriptLine};

verus! {

/// One in-flight task: its id and its resolved path name.
pub struct Entry {
    /// The task's id.
    pub id: u64,
    /// The task's resolved path name.
    pub name: String,
}

/// The progress tracker. It records, for every task currently in flight, the
/// resolved path name under the task's id, ordered by id ascending (which is
/// spawn order, since ids are assigned monotonically).
pub struct Scons {
    /// The in-flight entries, ordered by strictly increasing id.
    pub entries: Vec<Entry>,
}

impl Scons {
    /// Well-formedness: the ids of the in-flight entries are strictly
    /// increasing, so every id occurs at most once.
    pub open spec fn wf(&self) -> bool {
        forall|i: int, j: int|
            0 <= i < j < self.entries@.len() ==> (#[trigger] self.entries@[i]).id < (
            #[trigger] self.entries@[j]).id
    }

    /// Whether a task with id `id` is in flight.
    pub open spec fn contains(&self, id: u64) -> bool {
        exists|i: int| 0 <= i < self.entries@.len() && (#[trigger] self.entries@[i]).id == id
    }

    /// The position of the in-flight task with id `id`.
    pub open spec fn idx(&self, id: u64) -> int {
        choose|i: int| 0 <= i < self.entries@.len() && (#[trigger] self.entries@[i]).id == id
    }

    /// Two in-flight positions holding the same id are the same position.
    proof fn lemma_id_unique(&self, i: int, j: int)
        requires
            self.wf(),
            0 <= i < self.entries@.len(),
            0 <= j < self.entries@.len(),
            self.entries@[i].id == self.entries@[j].id,
        ensures
            i == j,
    {
    }

    /// Distinct in-flight positions hold distinct ids.
    pub proof fn lemma_idx_distinct(&self, i: int, j: int)
        requires
            self.wf(),
            0 <= i < self.entries@.len(),
            0 <= j < self.entries@.len(),
            i != j,
        ensures
            self.entries@[i].id != self.entries@[j].id,
    {
    }

    /// Create an empty tracker.
    pub fn new() -> (s: Scons)
        ensures
            s.wf(),
            s.entries@.len() == 0,
    {
        Scons { entries: Vec::new() }
    }

    /// Register a newly spawned task as in flight. The scheduler assigns ids
    /// monotonically, so the new id is larger than every id in flight and the
    /// entry goes to the end.
    pub fn insert(&mut self, id: u64, name: String)
        requires
            old(self).wf(),
            forall|i: int|
                0 <= i < old(self).entries@.len() ==> (#[trigger] old(self).entries@[i]).id < id,
        ensures
            final(self).wf(),
            final(self).entries@ == old(self).entries@.push(Entry { id, name }),
    {
        self.entries.push(Entry { id, name });
    }

    /// Mark the in-flight task `id` as completed: remove its entry, return
    /// its resolved path name, and compute the transcript line (if any) that
    /// the completion produces.
    pub fn remove(&mut self, id: u64, res: &TestResult) -> (r: (String, Option<TranscriptLine>))
        requires
            old(self).wf(),
            old(self).contains(id),
        ensures
            final(self).wf(),
            final(self).entries@ == old(self).entries@.remove(old(self).idx(id)),
            r.0 == old(self).entries@[old(self).idx(id)].name,
            r.1 is Some <==> emits(*res),
            r.1 matches Some(l) ==> l.severity == spec_sev(*res) && l.text@ == spec_text(
                r.0@,
                *res,
            ),
    {
        let mut i: usize = 0;
        while i < self.entries.len() && self.entries[i].id != id
            invariant
                *self == *old(self),
                0 <= i <= self.entries@.len(),
                forall|j: int| 0 <= j < i ==> (#[trigger] self.entries@[j]).id != id,
            decreases self.entries@.len() - i,
        {
            i += 1;
        }
        proof {
            let w = old(self).idx(id);
            assert(0 <= w < self.entries@.len() && self.entries@[w].id == id);
            assert(i < self.entries@.len());
            self.lemma_id_unique(i as int, w);
        }
        let e = self.entries.remove(i);
        let line = res_line(&e.name, res);
        proof {
            assert forall|p: int, q: int|
                0 <= p < q < self.entries@.len() implies (#[trigger] self.entries@[p]).id < (
            #[trigger] self.entries@[q]).id by {
                assert(self.entries@[p] == if p < i {
                    old(self).entries@[p]
                } else {
                    old(self).entries@[p + 1]
                });
                assert(self.entries@[q] == if q < i {
                    old(self).entries@[q]
                } else {
                    old(self).entries@[q + 1]
                });
            }
        }
        (e.name, line)
    }

    /// The live view: the path names of up to the first 10 in-flight tasks,
    /// in id order (the earliest-spawned tasks still in flight); the rest are
    /// elided.
    pub fn visible_names(&self) -> (v: Vec<String>)
        ensures
            v@.len() == if self.entries@.len() < 10 {
                self.entries@.len()
            } else {
                10
            },
            forall|i: int| 0 <= i < v@.len() ==> v@[i] == self.entries@[i].name,
    {
        let mut v: Vec<String> = Vec::new();
        let mut i: usize = 0;
        while i < self.entries.len() && i < 10
            invariant
                0 <= i <= self.entries@.len(),
                i <= 10,
                v@.len() == i,
                forall|j: int| 0 <= j < i ==> v@[j] == self.entries@[j].name,
            decreases self.entries@.len() - i,
        {
            v.push(self.entries[i].name.clone());
            i += 1;
        }
        v
    }
}

} // verus!
