//! The library's stated guarantees, as proved laws.
//!
//! Each proof function here states one promised property of the duplicate
//! report or of the canonical key, over the same spec functions the
//! executable contracts use, so a caller of
//! [`find_duplicate_subtrees`](crate::dups::find_duplicate_subtrees) can
//! combine its `ensures` with these laws.

use vstd::prelude::*;
use crate::inject::lemma_serialize_injective;
use crate::report::{spec_count, spec_report, lemma_report_count, lemma_position_counts,
    lemma_two_positions_count, lemma_count_two_exists, lemma_count_three_exists,
    lemma_single_count_singleton};
use crate::serial::spec_serialize;
use crate::tree::{subtrees, TreeNode};

verus! {

/// A tree in which no two distinct subtree positions hold identical
/// subtrees has an empty duplicate report.
pub proof fn lemma_no_duplicates_empty(t: TreeNode)
    requires
        forall|i: int, j: int| 0 <= i < j < subtrees(t).len() ==> subtrees(t)[i] != subtrees(
            t,
        )[j],
    ensures
        spec_report(subtrees(t)) == Seq::<TreeNode>::empty(),
{
    let ts = subtrees(t);
    let rep = spec_report(ts);
    if rep.len() > 0 {
        let x = rep.last();
        lemma_position_counts(rep, rep.len() - 1);
        lemma_report_count(ts, x);
        lemma_count_two_exists(ts, x);
        assert(false);
    }
    assert(rep =~= Seq::<TreeNode>::empty());
}

/// If exactly one pair of subtree positions holds identical subtrees, the
/// report is exactly one representative: that subtree, the one whose second
/// occurrence sits at the later position.
pub proof fn lemma_single_pair_single_representative(t: TreeNode, i: int, j: int)
    requires
        0 <= i < j < subtrees(t).len(),
        subtrees(t)[i] == subtrees(t)[j],
        forall|a: int, b: int|
            0 <= a < b < subtrees(t).len() && !(a == i && b == j) ==> subtrees(t)[a] != subtrees(
                t,
            )[b],
    ensures
        spec_report(subtrees(t)) == seq![subtrees(t)[j]],
{
    let ts = subtrees(t);
    let x = ts[i];
    lemma_two_positions_count(ts, i, j);
    assert(spec_count(ts, x) <= 2) by {
        if spec_count(ts, x) >= 3 {
            lemma_count_three_exists(ts, x);
            let (a, b, c) = choose|a: int, b: int, c: int|
                0 <= a < b < c < ts.len() && ts[a] == x && ts[b] == x && ts[c] == x;
            assert(ts[a] == ts[b] && ts[b] == ts[c]);
            assert(a == i && b == j);
            assert(b == i && c == j);
            assert(false);
        }
    }
    assert forall|y: TreeNode| y != x implies spec_count(ts, y) <= 1 by {
        if spec_count(ts, y) >= 2 {
            lemma_count_two_exists(ts, y);
            let (a, b) = choose|a: int, b: int| 0 <= a < b < ts.len() && ts[a] == y && ts[b] == y;
            assert(a == i && b == j);
            assert(y == x);
        }
    }
    lemma_report_count(ts, x);
    assert forall|y: TreeNode| y != x implies #[trigger] spec_count(spec_report(ts), y) == 0 by {
        lemma_report_count(ts, y);
    }
    lemma_single_count_singleton(spec_report(ts), x);
}

/// A subtree occurring at least twice — however many times — is reported
/// exactly once; one occurring at most once is never reported.
pub proof fn lemma_duplicate_reported_once(t: TreeNode, x: TreeNode)
    ensures
        spec_count(spec_report(subtrees(t)), x) == if spec_count(subtrees(t), x) >= 2 {
            1nat
        } else {
            0nat
        },
{
    lemma_report_count(subtrees(t), x);
}

/// Left/right position matters: swapping the two (distinct) children of a
/// node yields a different subtree with a different canonical key, so a
/// subtree identical to the original before the swap no longer matches it
/// afterwards.
pub proof fn lemma_swap_position_sensitive(t: TreeNode)
    requires
        t.left != t.right,
    ensures
        ({
            let swapped = TreeNode { val: t.val, left: t.right, right: t.left };
            swapped != t && spec_serialize(swapped) != spec_serialize(t)
        }),
{
    let swapped = TreeNode { val: t.val, left: t.right, right: t.left };
    assert(swapped != t);
    lemma_serialize_injective(swapped, t);
}

/// Serialization is deterministic: two renderings of the same unmodified
/// tree are identical.
pub proof fn lemma_serialize_deterministic(t: TreeNode, r1: Seq<char>, r2: Seq<char>)
    requires
        r1 == spec_serialize(t),
        r2 == spec_serialize(t),
    ensures
        r1 == r2,
{
}

} // verus!
