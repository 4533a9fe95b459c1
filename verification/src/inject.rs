//! Injectivity of the canonical serialization.
//!
//! Two subtrees get the same canonical key exactly when they are equal.
//! The proof goes through a prefix-freedom argument: a serialization
//! followed by arbitrary text determines both the tree and the text,
//! because the digits of the value can never be confused with the
//! parenthesis delimiters, and each child's rendering is again a
//! serialization starting with `'('`.

use vstd::prelude::*;
use crate::tree::TreeNode;
use crate::serial::{is_digit, digit_char, spec_digits, spec_serialize, spec_serialize_opt,
    lemma_digits_shape, lemma_serialize_shape};

verus! {

/// Distinct values have distinct digit renderings.
pub proof fn lemma_digits_inj(a: nat, b: nat)
    requires
        spec_digits(a) == spec_digits(b),
    ensures
        a == b,
    decreases a,
{
    lemma_digits_shape(a);
    lemma_digits_shape(b);
    if a < 10 && b < 10 {
        assert(spec_digits(a)[0] == digit_char(a));
        assert(spec_digits(b)[0] == digit_char(b));
    } else if a < 10 && b >= 10 {
        lemma_digits_shape(b / 10);
        assert(spec_digits(b).len() >= 2);
        assert(false);
    } else if a >= 10 && b < 10 {
        lemma_digits_shape(a / 10);
        assert(spec_digits(a).len() >= 2);
        assert(false);
    } else {
        let xa = spec_digits(a / 10);
        let xb = spec_digits(b / 10);
        assert(spec_digits(a).last() == digit_char(a % 10));
        assert(spec_digits(b).last() == digit_char(b % 10));
        assert(a % 10 == b % 10);
        assert(xa =~= xb) by {
            assert(xa.len() == xb.len());
            assert(forall|i: int| 0 <= i < xa.len() ==> #[trigger] xa[i] == spec_digits(a)[i]);
            assert(forall|i: int| 0 <= i < xb.len() ==> #[trigger] xb[i] == spec_digits(b)[i]);
        }
        lemma_digits_inj(a / 10, b / 10);
        vstd::arithmetic::div_mod::lemma_fundamental_div_mod(a as int, 10);
        vstd::arithmetic::div_mod::lemma_fundamental_div_mod(b as int, 10);
    }
}

/// A run of digits followed by a non-digit is read back uniquely: if the
/// concatenations agree, the runs agree and the tails agree.
pub proof fn lemma_digit_run(d1: Seq<char>, w1: Seq<char>, d2: Seq<char>, w2: Seq<char>)
    requires
        d1 + w1 == d2 + w2,
        d1.len() >= 1,
        d2.len() >= 1,
        forall|i: int| 0 <= i < d1.len() ==> is_digit(#[trigger] d1[i]),
        forall|i: int| 0 <= i < d2.len() ==> is_digit(#[trigger] d2[i]),
        w1.len() >= 1,
        !is_digit(w1[0]),
        w2.len() >= 1,
        !is_digit(w2[0]),
    ensures
        d1 == d2,
        w1 == w2,
{
    if d1.len() < d2.len() {
        assert((d1 + w1)[d1.len() as int] == w1[0]);
        assert((d2 + w2)[d1.len() as int] == d2[d1.len() as int]);
        assert(false);
    }
    if d2.len() < d1.len() {
        assert((d2 + w2)[d2.len() as int] == w2[0]);
        assert((d1 + w1)[d2.len() as int] == d1[d2.len() as int]);
        assert(false);
    }
    assert(d1 =~= d2) by {
        assert(forall|i: int| 0 <= i < d1.len() ==> (d1 + w1)[i] == #[trigger] d1[i]);
        assert(forall|i: int| 0 <= i < d2.len() ==> (d2 + w2)[i] == #[trigger] d2[i]);
    }
    assert((d1 + w1).len() == d1.len() + w1.len());
    assert((d2 + w2).len() == d2.len() + w2.len());
    assert(w1.len() == w2.len());
    assert forall|i: int| 0 <= i < w1.len() implies #[trigger] w1[i] == w2[i] by {
        assert(w1[i] == (d1 + w1)[d1.len() + i]);
        assert(w2[i] == (d2 + w2)[d2.len() + i]);
    }
    assert(w1 =~= w2);
}

/// Serializations are prefix-determined: a serialization plus arbitrary
/// following text pins down both the tree and the text.
pub proof fn lemma_serialize_prefix(t1: TreeNode, t2: TreeNode, u1: Seq<char>, u2: Seq<char>)
    requires
        spec_serialize(t1) + u1 == spec_serialize(t2) + u2,
    ensures
        t1 == t2,
        u1 == u2,
    decreases t1,
{
    let a_l = spec_serialize_opt(t1.left);
    let a_d = spec_digits(t1.val as nat);
    let a_r = spec_serialize_opt(t1.right);
    let b_l = spec_serialize_opt(t2.left);
    let b_d = spec_digits(t2.val as nat);
    let b_r = spec_serialize_opt(t2.right);
    lemma_digits_shape(t1.val as nat);
    lemma_digits_shape(t2.val as nat);

    // Peel the opening parenthesis: y is everything after it.
    let y1 = a_l + (a_d + (a_r + (seq![')'] + u1)));
    let y2 = b_l + (b_d + (b_r + (seq![')'] + u2)));
    assert(spec_serialize(t1) + u1 =~= seq!['('] + y1);
    assert(spec_serialize(t2) + u2 =~= seq!['('] + y2);
    assert(y1 =~= y2) by {
        assert(forall|i: int| 0 <= i < y1.len() ==>
            (seq!['('] + y1)[1 + i] == #[trigger] y1[i]);
        assert(forall|i: int| 0 <= i < y2.len() ==>
            (seq!['('] + y2)[1 + i] == #[trigger] y2[i]);
    }

    // The left children: either both rendered (recurse), or both absent;
    // a mixed pair would put a '(' where the other side has a digit.
    let v1 = a_d + (a_r + (seq![')'] + u1));
    let v2 = b_d + (b_r + (seq![')'] + u2));
    match (t1.left, t2.left) {
        (Option::Some(l1), Option::Some(l2)) => {
            lemma_serialize_prefix(*l1, *l2, v1, v2);
        },
        (Option::Some(l1), Option::None) => {
            lemma_serialize_shape(*l1);
            assert(y1[0] == a_l[0]);
            assert(y2 =~= v2);
            assert(y2[0] == b_d[0]);
            assert(false);
        },
        (Option::None, Option::Some(l2)) => {
            lemma_serialize_shape(*l2);
            assert(y2[0] == b_l[0]);
            assert(y1 =~= v1);
            assert(y1[0] == a_d[0]);
            assert(false);
        },
        (Option::None, Option::None) => {
            assert(y1 =~= v1);
            assert(y2 =~= v2);
        },
    }
    assert(v1 == v2);

    // The value digits: a maximal digit run on both sides.
    let w1 = a_r + (seq![')'] + u1);
    let w2 = b_r + (seq![')'] + u2);
    assert(w1.len() >= 1 && !is_digit(w1[0])) by {
        match t1.right {
            Option::Some(r1) => {
                lemma_serialize_shape(*r1);
                assert(w1[0] == a_r[0]);
            },
            Option::None => {
                assert(w1 =~= seq![')'] + u1);
            },
        }
    }
    assert(w2.len() >= 1 && !is_digit(w2[0])) by {
        match t2.right {
            Option::Some(r2) => {
                lemma_serialize_shape(*r2);
                assert(w2[0] == b_r[0]);
            },
            Option::None => {
                assert(w2 =~= seq![')'] + u2);
            },
        }
    }
    lemma_digit_run(a_d, w1, b_d, w2);
    lemma_digits_inj(t1.val as nat, t2.val as nat);
    assert(t1.val == t2.val);

    // The right children, then the closing parenthesis.
    match (t1.right, t2.right) {
        (Option::Some(r1), Option::Some(r2)) => {
            lemma_serialize_prefix(*r1, *r2, seq![')'] + u1, seq![')'] + u2);
            assert(u1 =~= u2) by {
                assert(forall|i: int| 0 <= i < u1.len() ==>
                    (seq![')'] + u1)[1 + i] == #[trigger] u1[i]);
                assert(forall|i: int| 0 <= i < u2.len() ==>
                    (seq![')'] + u2)[1 + i] == #[trigger] u2[i]);
            }
        },
        (Option::Some(r1), Option::None) => {
            lemma_serialize_shape(*r1);
            assert(w1[0] == a_r[0]);
            assert(w2 =~= seq![')'] + u2);
            assert(false);
        },
        (Option::None, Option::Some(r2)) => {
            lemma_serialize_shape(*r2);
            assert(w2[0] == b_r[0]);
            assert(w1 =~= seq![')'] + u1);
            assert(false);
        },
        (Option::None, Option::None) => {
            assert(w1 =~= seq![')'] + u1);
            assert(w2 =~= seq![')'] + u2);
            assert(u1 =~= u2) by {
                assert(forall|i: int| 0 <= i < u1.len() ==>
                    (seq![')'] + u1)[1 + i] == #[trigger] u1[i]);
                assert(forall|i: int| 0 <= i < u2.len() ==>
                    (seq![')'] + u2)[1 + i] == #[trigger] u2[i]);
            }
        },
    }
    assert(t1 == t2);
}

/// The canonical key separates subtrees exactly: equal keys, equal trees.
/// In particular a node whose children are swapped serializes differently
/// from the original whenever the two children differ, so left/right
/// position is never lost.
pub proof fn lemma_serialize_injective(t1: TreeNode, t2: TreeNode)
    ensures
        (spec_serialize(t1) == spec_serialize(t2)) <==> (t1 == t2),
{
    if spec_serialize(t1) == spec_serialize(t2) {
        assert(spec_serialize(t1) + Seq::<char>::empty() =~= spec_serialize(t1));
        assert(spec_serialize(t2) + Seq::<char>::empty() =~= spec_serialize(t2));
        lemma_serialize_prefix(t1, t2, Seq::empty(), Seq::empty());
    }
}

} // verus!
