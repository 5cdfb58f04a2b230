//! A test tree whose shape is known as data: every node carries its declared
//! name and the outcome its case reports, with branches carrying their child
//! cases. The runner discovers such a tree exactly as it discovers a live
//! one: only when a case completes.

use vstd::prelude::*;

verus! {

/// One test case of a tree: its declared (unresolved) name and the outcome
/// it reports on completion.
pub struct CaseTree {
    /// The case's own declared name, not a full path.
    pub name: String,
    /// The outcome the case reports.
    pub sub: CaseOutcome,
}

/// The outcome a test case of a tree reports on completion.
pub enum CaseOutcome {
    /// The case passes with no remarks.
    Pass,
    /// The case passes but attaches a warning.
    Warn(String),
    /// The case fails.
    Fail(String),
    /// The case passes and branches into the given child cases.
    Branch(Vec<CaseTree>),
}

/// The number of leaf outcomes a case with outcome `o` reaches: one for a
/// pass, a warning, a failure or an empty branch, and the leaves of all
/// children for a branch with children.
pub open spec fn leaf_count_o(o: CaseOutcome) -> nat
    decreases o,
{
    match o {
        CaseOutcome::Branch(cs) => if cs@.len() == 0 {
            1nat
        } else {
            leaf_count_trees(cs@)
        },
        _ => 1nat,
    }
}

/// The leaf outcomes reached by each case of `s`, summed.
pub open spec fn leaf_count_trees(s: Seq<CaseTree>) -> nat
    decreases s,
{
    if s.len() <= 0 {
        0nat
    } else {
        leaf_count_o(s[0].sub) + leaf_count_trees(s.subrange(1, s.len() as int))
    }
}

/// The number of leaf outcomes the whole tree `t` reaches.
pub open spec fn leaf_count(t: CaseTree) -> nat {
    leaf_count_o(t.sub)
}

/// The number of tasks spawned below a case with outcome `o` (the case
/// itself not counted).
pub open spec fn node_count_o(o: CaseOutcome) -> nat
    decreases o,
{
    match o {
        CaseOutcome::Branch(cs) => node_sum_trees(cs@),
        _ => 0nat,
    }
}

/// The number of tasks the whole tree `t` spawns: the case itself and every
/// case below it.
pub open spec fn node_count(t: CaseTree) -> nat
    decreases t,
{
    1 + node_count_o(t.sub)
}

/// The tasks spawned by each tree of `s`, summed.
pub open spec fn node_sum_trees(s: Seq<CaseTree>) -> nat
    decreases s,
{
    if s.len() <= 0 {
        0nat
    } else {
        node_count(s[0]) + node_sum_trees(s.subrange(1, s.len() as int))
    }
}

/// Whether any case at or below a case with outcome `o` fails.
pub open spec fn has_fail_o(o: CaseOutcome) -> bool
    decreases o,
{
    match o {
        CaseOutcome::Fail(_) => true,
        CaseOutcome::Branch(cs) => any_fail_trees(cs@),
        _ => false,
    }
}

/// Whether any case of the whole tree `t` fails.
pub open spec fn has_fail(t: CaseTree) -> bool
    decreases t,
{
    has_fail_o(t.sub)
}

/// Whether any case of any tree of `s` fails.
pub open spec fn any_fail_trees(s: Seq<CaseTree>) -> bool
    decreases s,
{
    if s.len() <= 0 {
        false
    } else {
        has_fail(s[0]) || any_fail_trees(s.subrange(1, s.len() as int))
    }
}

/// Every tree spawns at least its own case.
pub proof fn lemma_node_sum_ge_len(s: Seq<CaseTree>)
    ensures
        node_sum_trees(s) >= s.len(),
    decreases s.len(),
{
    if s.len() > 0 {
        let t = s.subrange(1, s.len() as int);
        lemma_node_sum_ge_len(t);
        assert(node_sum_trees(s) == node_count(s[0]) + node_sum_trees(t));
        assert(node_count(s[0]) >= 1);
    }
}

/// The sums over the first `j + 1` trees of `s` extend the sums over the
/// first `j` trees by the contribution of `s[j]`.
pub proof fn lemma_trees_take_step(s: Seq<CaseTree>, j: int)
    requires
        0 <= j < s.len(),
    ensures
        leaf_count_trees(s.subrange(0, j + 1)) == leaf_count_trees(s.subrange(0, j))
            + leaf_count_o(s[j].sub),
        node_sum_trees(s.subrange(0, j + 1)) == node_sum_trees(s.subrange(0, j)) + node_count(
            s[j],
        ),
        any_fail_trees(s.subrange(0, j + 1)) == (any_fail_trees(s.subrange(0, j)) || has_fail(
            s[j],
        )),
    decreases j,
{
    let a = s.subrange(0, j + 1);
    let b = s.subrange(0, j);
    if j == 0 {
        assert(a[0] == s[0]);
        assert(a.subrange(1, 1) =~= Seq::<CaseTree>::empty());
        assert(b =~= Seq::<CaseTree>::empty());
    } else {
        let t = s.subrange(1, s.len() as int);
        lemma_trees_take_step(t, j - 1);
        assert(a[0] == s[0]);
        assert(b[0] == s[0]);
        assert(a.subrange(1, a.len() as int) =~= t.subrange(0, j));
        assert(b.subrange(1, b.len() as int) =~= t.subrange(0, j - 1));
        assert(t[j - 1] == s[j]);
    }
}

/// Taking every tree of `s` is `s` itself.
pub proof fn lemma_trees_take_all(s: Seq<CaseTree>)
    ensures
        leaf_count_trees(s.subrange(0, s.len() as int)) == leaf_count_trees(s),
        node_sum_trees(s.subrange(0, s.len() as int)) == node_sum_trees(s),
        any_fail_trees(s.subrange(0, s.len() as int)) == any_fail_trees(s),
{
    assert(s.subrange(0, s.len() as int) =~= s);
}

} // verus!
