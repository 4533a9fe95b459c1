//! The duplicate report, modelled over the post-order sequence of subtrees.
//!
//! Walking the subtrees in post-order, a subtree is reported the moment its
//! occurrence count rises from one to two: the second occurrence stands for
//! the whole group, and later occurrences add nothing.  `spec_report` states
//! that policy over any sequence of subtrees; `spec_new_reps` states what a
//! traversal adds when some subtrees have already been seen.

use vstd::prelude::*;
use crate::tree::TreeNode;

verus! {

/// How many entries of `ts` equal `t`.
pub open spec fn spec_count(ts: Seq<TreeNode>, t: TreeNode) -> nat
    decreases ts.len(),
{
    if ts.len() == 0 {
        0
    } else {
        spec_count(ts.drop_last(), t) + if ts.last() == t {
            1nat
        } else {
            0nat
        }
    }
}

/// The representatives newly reported while the subtrees `ts` are classified
/// after the subtrees `prev` have already been counted: each entry whose
/// running count (over `prev` and the part of `ts` before it) was exactly
/// one at its turn.
pub open spec fn spec_new_reps(prev: Seq<TreeNode>, ts: Seq<TreeNode>) -> Seq<TreeNode>
    decreases ts.len(),
{
    if ts.len() == 0 {
        Seq::empty()
    } else {
        spec_new_reps(prev, ts.drop_last()) + if spec_count(
            prev + ts.drop_last(),
            ts.last(),
        ) == 1 {
            seq![ts.last()]
        } else {
            Seq::empty()
        }
    }
}

/// The duplicate report for the subtree sequence `ts`: one representative
/// per duplicate group, in order of detection.
pub open spec fn spec_report(ts: Seq<TreeNode>) -> Seq<TreeNode> {
    spec_new_reps(Seq::empty(), ts)
}

/// Counting distributes over concatenation.
pub proof fn lemma_count_concat(a: Seq<TreeNode>, b: Seq<TreeNode>, t: TreeNode)
    ensures
        spec_count(a + b, t) == spec_count(a, t) + spec_count(b, t),
    decreases b.len(),
{
    if b.len() == 0 {
        assert(a + b =~= a);
    } else {
        assert((a + b).drop_last() =~= a + b.drop_last());
        assert((a + b).last() == b.last());
        lemma_count_concat(a, b.drop_last(), t);
    }
}

/// A count never exceeds the sequence's length.
pub proof fn lemma_count_le_len(ts: Seq<TreeNode>, t: TreeNode)
    ensures
        spec_count(ts, t) <= ts.len(),
    decreases ts.len(),
{
    if ts.len() > 0 {
        lemma_count_le_len(ts.drop_last(), t);
    }
}

/// Classifying a concatenation reports what the first part reports, then
/// what the second part adds once the first is behind it.
pub proof fn lemma_new_reps_concat(prev: Seq<TreeNode>, a: Seq<TreeNode>, b: Seq<TreeNode>)
    ensures
        spec_new_reps(prev, a + b) == spec_new_reps(prev, a) + spec_new_reps(prev + a, b),
    decreases b.len(),
{
    if b.len() == 0 {
        assert(a + b =~= a);
        assert(spec_new_reps(prev, a) + spec_new_reps(prev + a, b) =~= spec_new_reps(prev, a));
    } else {
        assert((a + b).drop_last() =~= a + b.drop_last());
        assert((a + b).last() == b.last());
        lemma_new_reps_concat(prev, a, b.drop_last());
        assert(prev + (a + b.drop_last()) =~= (prev + a) + b.drop_last());
        assert(spec_new_reps(prev, a + b) =~= spec_new_reps(prev, a) + spec_new_reps(
            prev + a,
            b,
        ));
    }
}

/// How often a subtree appears among the newly reported representatives:
/// exactly once if its running count crosses two during `ts`, never
/// otherwise.
pub proof fn lemma_new_reps_count(prev: Seq<TreeNode>, ts: Seq<TreeNode>, t: TreeNode)
    ensures
        spec_count(spec_new_reps(prev, ts), t) == if spec_count(prev, t) <= 1
            && spec_count(prev, t) + spec_count(ts, t) >= 2 {
            1nat
        } else {
            0nat
        },
    decreases ts.len(),
{
    if ts.len() == 0 {
    } else {
        let p = ts.drop_last();
        let l = ts.last();
        lemma_new_reps_count(prev, p, t);
        lemma_count_concat(prev, p, l);
        let add = if spec_count(prev + p, l) == 1 {
            seq![l]
        } else {
            Seq::<TreeNode>::empty()
        };
        lemma_count_concat(spec_new_reps(prev, p), add, t);
        assert(spec_new_reps(prev, ts) == spec_new_reps(prev, p) + add);
        if add.len() == 1 {
            assert(add.drop_last() =~= Seq::<TreeNode>::empty());
            assert(spec_count(Seq::<TreeNode>::empty(), t) == 0);
            assert(add.last() == l);
            assert(spec_count(add, t) == if l == t { 1nat } else { 0nat });
        } else {
            assert(spec_count(add, t) == 0);
        }
    }
}

/// The heart of the reporting policy: a subtree occurring at least twice is
/// reported exactly once, however many times it occurs; one occurring at
/// most once is not reported.
pub proof fn lemma_report_count(ts: Seq<TreeNode>, t: TreeNode)
    ensures
        spec_count(spec_report(ts), t) == if spec_count(ts, t) >= 2 {
            1nat
        } else {
            0nat
        },
{
    lemma_new_reps_count(Seq::empty(), ts, t);
}

/// A positive count exhibits a position.
pub proof fn lemma_count_pos_exists(ts: Seq<TreeNode>, t: TreeNode)
    requires
        spec_count(ts, t) >= 1,
    ensures
        exists|i: int| 0 <= i < ts.len() && ts[i] == t,
    decreases ts.len(),
{
    if ts.last() == t {
        assert(ts[ts.len() - 1] == t);
    } else {
        lemma_count_pos_exists(ts.drop_last(), t);
        let i = choose|i: int| 0 <= i < ts.drop_last().len() && ts.drop_last()[i] == t;
        assert(ts[i] == t);
    }
}

/// A position contributes to the count.
pub proof fn lemma_position_counts(ts: Seq<TreeNode>, i: int)
    requires
        0 <= i < ts.len(),
    ensures
        spec_count(ts, ts[i]) >= 1,
    decreases ts.len(),
{
    if i == ts.len() - 1 {
    } else {
        lemma_position_counts(ts.drop_last(), i);
    }
}

/// Two positions holding the same subtree push its count to at least two.
pub proof fn lemma_two_positions_count(ts: Seq<TreeNode>, i: int, j: int)
    requires
        0 <= i < j < ts.len(),
        ts[i] == ts[j],
    ensures
        spec_count(ts, ts[i]) >= 2,
    decreases ts.len(),
{
    if j == ts.len() - 1 {
        lemma_position_counts(ts.drop_last(), i);
    } else {
        lemma_two_positions_count(ts.drop_last(), i, j);
    }
}

/// A count of at least two exhibits two positions.
pub proof fn lemma_count_two_exists(ts: Seq<TreeNode>, t: TreeNode)
    requires
        spec_count(ts, t) >= 2,
    ensures
        exists|i: int, j: int| 0 <= i < j < ts.len() && ts[i] == t && ts[j] == t,
    decreases ts.len(),
{
    if ts.last() == t {
        lemma_count_pos_exists(ts.drop_last(), t);
        let i = choose|i: int| 0 <= i < ts.drop_last().len() && ts.drop_last()[i] == t;
        let j = ts.len() - 1;
        assert(0 <= i < j < ts.len() && ts[i] == t && ts[j] == t);
    } else {
        lemma_count_two_exists(ts.drop_last(), t);
        let (i, j) = choose|i: int, j: int|
            0 <= i < j < ts.drop_last().len() && ts.drop_last()[i] == t && ts.drop_last()[j] == t;
        assert(0 <= i < j < ts.len() && ts[i] == t && ts[j] == t);
    }
}

/// A count of at least three exhibits three positions.
pub proof fn lemma_count_three_exists(ts: Seq<TreeNode>, t: TreeNode)
    requires
        spec_count(ts, t) >= 3,
    ensures
        exists|i: int, j: int, k: int|
            0 <= i < j < k < ts.len() && ts[i] == t && ts[j] == t && ts[k] == t,
    decreases ts.len(),
{
    if ts.last() == t {
        lemma_count_two_exists(ts.drop_last(), t);
        let (i, j) = choose|i: int, j: int|
            0 <= i < j < ts.drop_last().len() && ts.drop_last()[i] == t && ts.drop_last()[j] == t;
        let k = ts.len() - 1;
        assert(0 <= i < j < k < ts.len() && ts[i] == t && ts[j] == t && ts[k] == t);
    } else {
        lemma_count_three_exists(ts.drop_last(), t);
        let (i, j, k) = choose|i: int, j: int, k: int|
            0 <= i < j < k < ts.drop_last().len() && ts.drop_last()[i] == t && ts.drop_last()[j]
                == t && ts.drop_last()[k] == t;
        assert(0 <= i < j < k < ts.len() && ts[i] == t && ts[j] == t && ts[k] == t);
    }
}

/// A sequence in which nothing counts is empty.
pub proof fn lemma_all_zero_empty(s: Seq<TreeNode>)
    requires
        forall|t: TreeNode| #[trigger] spec_count(s, t) == 0,
    ensures
        s == Seq::<TreeNode>::empty(),
{
    if s.len() > 0 {
        assert(spec_count(s, s.last()) >= 1);
        assert(false);
    }
    assert(s =~= Seq::<TreeNode>::empty());
}

/// A sequence whose whole count lies on one subtree, once, is that
/// singleton.
pub proof fn lemma_single_count_singleton(s: Seq<TreeNode>, x: TreeNode)
    requires
        spec_count(s, x) == 1,
        forall|t: TreeNode| t != x ==> #[trigger] spec_count(s, t) == 0,
    ensures
        s == seq![x],
{
    assert(s.len() > 0) by {
        if s.len() == 0 {
            assert(spec_count(s, x) == 0);
        }
    }
    assert(s.last() == x) by {
        if s.last() != x {
            assert(spec_count(s, s.last()) >= 1);
        }
    }
    let p = s.drop_last();
    assert(spec_count(p, x) == 0);
    assert forall|t: TreeNode| #[trigger] spec_count(p, t) == 0 by {
        if t != x {
            assert(spec_count(s, t) == 0);
            assert(spec_count(s, t) == spec_count(p, t) + if s.last() == t {
                1nat
            } else {
                0nat
            });
        }
    }
    lemma_all_zero_empty(p);
    assert(s =~= seq![x]);
}

} // verus!
