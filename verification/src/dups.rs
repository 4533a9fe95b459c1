//! The traversal: canonicalize every subtree, count keys, collect duplicates.
//!
//! One post-order pass serializes each subtree bottom-up, records its key in
//! a [`DupIndex`](crate::index::DupIndex), and appends a deep clone of the
//! node to the report exactly when the key's count rises from one to two.
//! Because the key is injective over subtrees, key counts and subtree counts
//! agree, and the report is `spec_report` of the post-order subtree
//! sequence.

use vstd::prelude::*;
use crate::index::DupIndex;
use crate::inject::lemma_serialize_injective;
use crate::report::{spec_count, spec_new_reps, spec_report, lemma_count_concat,
    lemma_count_le_len, lemma_new_reps_concat};
use crate::serial::{spec_serialize, u64_digits};
use crate::tree::{subtrees, subtrees_opt, tree_size, TreeNode};

verus! {

/// The index agrees with the multiset of subtrees classified so far: every
/// subtree's key counts exactly its occurrences among `processed`.
pub open spec fn index_models(ix: DupIndex, processed: Seq<TreeNode>) -> bool {
    forall|t: TreeNode| ix.spec_get(#[trigger] spec_serialize(t)) == spec_count(processed, t)
}

/// Classify every subtree under `root` in post-order, after the subtrees
/// `processed` have already been classified into `index`: returns the
/// canonical key of `root`, leaves the index counting `processed` plus
/// `root`'s subtrees, and appends to `dups` one deep clone of each subtree
/// whose running count rose from one to two during this pass.
pub fn in_order_with_dups(
    root: &TreeNode,
    index: &mut DupIndex,
    dups: &mut Vec<TreeNode>,
    processed: Ghost<Seq<TreeNode>>,
) -> (r: String)
    requires
        old(index).wf(),
        index_models(*old(index), processed@),
        processed@.len() + tree_size(*root) <= usize::MAX,
    ensures
        r@ == spec_serialize(*root),
        final(index).wf(),
        index_models(*final(index), processed@ + subtrees(*root)),
        final(dups)@ == old(dups)@ + spec_new_reps(processed@, subtrees(*root)),
    decreases *root,
{
    let ghost p0 = processed@;
    let ghost s_l = subtrees_opt(root.left);
    let ghost s_r = subtrees_opt(root.right);
    proof {
        assert(subtrees(*root) == (s_l + s_r) + seq![*root]);
        assert(tree_size(*root) == s_l.len() + s_r.len() + 1);
    }

    let mut s: String = "(".to_owned();
    proof {
        reveal_strlit("(");
    }
    match &root.left {
        Option::Some(l) => {
            let ls = in_order_with_dups(&**l, index, dups, Ghost(p0));
            s.append(ls.as_str());
        },
        Option::None => {
            proof {
                assert(p0 + s_l =~= p0);
                assert(spec_new_reps(p0, s_l) == Seq::<TreeNode>::empty());
            }
        },
    }
    let ghost p1 = p0 + s_l;
    // Here: the index counts p1, and dups grew by spec_new_reps(p0, s_l).

    let ds = u64_digits(root.val);
    s.append(ds.as_str());

    match &root.right {
        Option::Some(r) => {
            let rs = in_order_with_dups(&**r, index, dups, Ghost(p1));
            s.append(rs.as_str());
        },
        Option::None => {
            proof {
                assert(p1 + s_r =~= p1);
                assert(spec_new_reps(p1, s_r) == Seq::<TreeNode>::empty());
            }
        },
    }
    let ghost p2 = p1 + s_r;
    s.append(")");
    proof {
        reveal_strlit(")");
        assert(s@ =~= spec_serialize(*root));
        // The running count of this very node is still what the index says.
        lemma_count_le_len(p2, *root);
        assert(p2.len() == p0.len() + s_l.len() + s_r.len());
    }

    let prev = index.bump(&s);
    if prev == 1 {
        dups.push(root.clone());
    }
    proof {
        let t0 = *root;
        assert(spec_count(seq![t0], t0) == 1) by {
            assert(seq![t0].drop_last() =~= Seq::<TreeNode>::empty());
            assert(spec_count(Seq::<TreeNode>::empty(), t0) == 0);
            assert(seq![t0].last() == t0);
        }
        // The index now counts p2 + [root]; injectivity carries every other
        // subtree's count across the bump.
        assert forall|t: TreeNode| index.spec_get(#[trigger] spec_serialize(t)) == spec_count(
            p2 + seq![t0],
            t,
        ) by {
            lemma_count_concat(p2, seq![t0], t);
            if t == t0 {
                assert(spec_count(seq![t0], t) == 1) by {
                    assert(seq![t0].drop_last() =~= Seq::<TreeNode>::empty());
                    assert(spec_count(Seq::<TreeNode>::empty(), t) == 0);
                    assert(seq![t0].last() == t0);
                }
            } else {
                lemma_serialize_injective(t, t0);
                assert(spec_serialize(t) != spec_serialize(t0));
                assert(spec_count(seq![t0], t) == 0) by {
                    assert(seq![t0].drop_last() =~= Seq::<TreeNode>::empty());
                    assert(spec_count(Seq::<TreeNode>::empty(), t) == 0);
                    assert(seq![t0].last() == t0);
                }
            }
        }
        assert(p2 + seq![t0] =~= p0 + subtrees(*root));
        assert(index_models(*index, p0 + subtrees(*root)));

        // The report: what the left added, what the right added, then
        // possibly this node, is exactly what the whole subtree adds.
        lemma_new_reps_concat(p0, s_l, s_r);
        lemma_new_reps_concat(p0, s_l + s_r, seq![t0]);
        assert(p0 + (s_l + s_r) =~= p2);
        let d3 = spec_new_reps(p2, seq![t0]);
        assert(d3 == if spec_count(p2, t0) == 1 { seq![t0] } else { Seq::<TreeNode>::empty() })
            by {
            assert(seq![t0].drop_last() =~= Seq::<TreeNode>::empty());
            assert(spec_new_reps(p2, Seq::<TreeNode>::empty()) == Seq::<TreeNode>::empty());
            assert(p2 + Seq::<TreeNode>::empty() =~= p2);
        }
        assert(spec_new_reps(p0, subtrees(*root)) == (spec_new_reps(p0, s_l) + spec_new_reps(
            p1,
            s_r,
        )) + d3);
        assert(dups@ =~= old(dups)@ + spec_new_reps(p0, subtrees(*root)));
    }
    s
}

/// All duplicate subtrees below `root`: one representative per group of
/// structurally and value-wise identical subtrees occurring at least twice,
/// cloned at its second occurrence in post-order.
pub fn find_duplicate_subtrees(root: &TreeNode) -> (r: Vec<TreeNode>)
    requires
        tree_size(*root) <= usize::MAX,
    ensures
        r@ == spec_report(subtrees(*root)),
{
    let mut index = DupIndex::new();
    let mut dups: Vec<TreeNode> = Vec::new();
    proof {
        assert forall|t: TreeNode| index.spec_get(#[trigger] spec_serialize(t)) == spec_count(
            Seq::<TreeNode>::empty(),
            t,
        ) by {
            assert(index.spec_get(spec_serialize(t)) == 0);
        }
    }
    in_order_with_dups(root, &mut index, &mut dups, Ghost(Seq::empty()));
    proof {
        assert(dups@ =~= spec_report(subtrees(*root)));
    }
    dups
}

/// The duplicate report of a possibly-empty tree: an absent root yields an
/// empty report, a present one yields its tree's report.
pub fn find_duplicate_subtrees_opt(root: Option<&TreeNode>) -> (r: Vec<TreeNode>)
    requires
        match root {
            Option::Some(t) => tree_size(*t) <= usize::MAX,
            Option::None => true,
        },
    ensures
        r@ == match root {
            Option::Some(t) => spec_report(subtrees(*t)),
            Option::None => Seq::<TreeNode>::empty(),
        },
{
    match root {
        Option::Some(t) => find_duplicate_subtrees(t),
        Option::None => Vec::new(),
    }
}

} // verus!
