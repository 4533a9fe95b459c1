//! Canonical serialization of subtrees.
//!
//! A subtree is rendered as `"(" + left + digits(val) + right + ")"`, where
//! an absent child contributes nothing between the delimiters.  Because the
//! value's decimal digits can never contain a parenthesis, the rendering is
//! unambiguous: position (left against right) and presence of a child are
//! both recoverable from the string, which is what makes it usable as a
//! canonical key.

use vstd::prelude::*;
use crate::tree::TreeNode;

verus! {

/// Whether `c` is a decimal digit.
pub open spec fn is_digit(c: char) -> bool {
    c == '0' || c == '1' || c == '2' || c == '3' || c == '4' || c == '5' || c == '6'
        || c == '7' || c == '8' || c == '9'
}

/// The digit character for `d` (meaningful for `d < 10`).
pub open spec fn digit_char(d: nat) -> char {
    if d == 0 {
        '0'
    } else if d == 1 {
        '1'
    } else if d == 2 {
        '2'
    } else if d == 3 {
        '3'
    } else if d == 4 {
        '4'
    } else if d == 5 {
        '5'
    } else if d == 6 {
        '6'
    } else if d == 7 {
        '7'
    } else if d == 8 {
        '8'
    } else {
        '9'
    }
}

/// The decimal digits of `v`, most significant first, with no leading zeros
/// (a single `'0'` for zero).
pub open spec fn spec_digits(v: nat) -> Seq<char>
    decreases v,
{
    if v < 10 {
        seq![digit_char(v)]
    } else {
        spec_digits(v / 10) + seq![digit_char(v % 10)]
    }
}

/// The serialization of an optional child: empty when absent.
pub open spec fn spec_serialize_opt(o: Option<Box<TreeNode>>) -> Seq<char>
    decreases o,
{
    match o {
        Option::None => Seq::empty(),
        Option::Some(t) => spec_serialize(*t),
    }
}

/// The canonical key of the subtree rooted at `t`.
pub open spec fn spec_serialize(t: TreeNode) -> Seq<char>
    decreases t,
{
    seq!['('] + spec_serialize_opt(t.left) + spec_digits(t.val as nat)
        + spec_serialize_opt(t.right) + seq![')']
}

/// The digits of any value are non-empty and all decimal digits.
pub proof fn lemma_digits_shape(v: nat)
    ensures
        spec_digits(v).len() >= 1,
        forall|i: int| 0 <= i < spec_digits(v).len() ==> is_digit(#[trigger] spec_digits(v)[i]),
    decreases v,
{
    if v >= 10 {
        lemma_digits_shape(v / 10);
    }
}

/// Every serialization is non-empty, starts with `'('` and ends with `')'`.
pub proof fn lemma_serialize_shape(t: TreeNode)
    ensures
        spec_serialize(t).len() >= 3,
        spec_serialize(t)[0] == '(',
        spec_serialize(t).last() == ')',
{
    lemma_digits_shape(t.val as nat);
}

/// The single-character string for digit `d`.
fn digit_str(d: u64) -> (r: &'static str)
    requires
        d < 10,
    ensures
        r@ == seq![digit_char(d as nat)],
{
    proof {
        reveal_strlit("0");
        reveal_strlit("1");
        reveal_strlit("2");
        reveal_strlit("3");
        reveal_strlit("4");
        reveal_strlit("5");
        reveal_strlit("6");
        reveal_strlit("7");
        reveal_strlit("8");
        reveal_strlit("9");
    }
    let r: &'static str = if d == 0 {
        "0"
    } else if d == 1 {
        "1"
    } else if d == 2 {
        "2"
    } else if d == 3 {
        "3"
    } else if d == 4 {
        "4"
    } else if d == 5 {
        "5"
    } else if d == 6 {
        "6"
    } else if d == 7 {
        "7"
    } else if d == 8 {
        "8"
    } else {
        "9"
    };
    proof {
        assert(r@ =~= seq![digit_char(d as nat)]);
    }
    r
}

/// The decimal rendering of `v`.
pub(crate) fn u64_digits(v: u64) -> (r: String)
    ensures
        r@ == spec_digits(v as nat),
    decreases v,
{
    if v < 10 {
        digit_str(v).to_owned()
    } else {
        let mut s = u64_digits(v / 10);
        s.append(digit_str(v % 10));
        proof {
            assert(s@ =~= spec_digits(v as nat));
        }
        s
    }
}

/// The canonical key of the subtree rooted at `node`, as a fresh string.
/// Deterministic: the result is a pure function of the subtree.
pub fn serialize_subtree(node: &TreeNode) -> (r: String)
    ensures
        r@ == spec_serialize(*node),
    decreases *node,
{
    let mut s: String = "(".to_owned();
    proof {
        reveal_strlit("(");
    }
    match &node.left {
        Option::Some(l) => {
            let ls = serialize_subtree(&**l);
            s.append(ls.as_str());
        },
        Option::None => {},
    }
    let ds = u64_digits(node.val);
    s.append(ds.as_str());
    match &node.right {
        Option::Some(r) => {
            let rs = serialize_subtree(&**r);
            s.append(rs.as_str());
        },
        Option::None => {},
    }
    s.append(")");
    proof {
        reveal_strlit(")");
        assert(s@ =~= spec_serialize(*node));
    }
    s
}

} // verus!
