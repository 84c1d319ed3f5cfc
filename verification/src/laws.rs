//! Proofs about the model: height bookkeeping, ordering, and rotations.

use crate::model::{
    all_at_least, all_at_most, has_left, has_right, heights_ok, is_bst, left_heavy, right_heavy,
    seq_of, sorted, spec_entries, spec_node_rot_left, spec_node_rot_right, spec_rot_left,
    spec_rot_right, spec_set_height, stored_height, subtree_heights_ok, true_height,
};
use crate::{Node, Tree};
use vstd::prelude::*;

verus! {

/// A tree ordered as a BST reads out sorted: its in-order traversal is
/// non-decreasing.
pub proof fn lemma_bst_sorted(t: Tree)
    requires
        is_bst(t),
    ensures
        sorted(seq_of(t)),
    decreases t,
{
    match t.0 {
        None => {},
        Some(n) => {
            assert(is_bst(n.left) && is_bst(n.right) && all_at_most(n.left, n.data)
                && all_at_least(n.right, n.data));
            lemma_bst_sorted(n.left);
            lemma_bst_sorted(n.right);
            let sl = seq_of(n.left);
            let sr = seq_of(n.right);
            let s = seq_of(t);
            assert(s == sl + seq![n.data] + sr);
            assert forall|i: int, j: int| 0 <= i < j < s.len() implies s[i] <= s[j] by {
                let m = sl.len() as int;
                if i < m {
                    assert(s[i] == sl[i]);
                    assert(sl[i] <= n.data);
                } else if i == m {
                    assert(s[i] == n.data);
                } else {
                    assert(s[i] == sr[i - m - 1]);
                }
                if j < m {
                    assert(s[j] == sl[j]);
                } else if j == m {
                    assert(s[j] == n.data);
                } else {
                    assert(s[j] == sr[j - m - 1]);
                    assert(sr[j - m - 1] >= n.data);
                }
            }
        },
    }
}

/// The multiset of `a + [d] + b`, decomposed into its three parts.
proof fn lemma_mid_multiset(a: Seq<i64>, d: i64, b: Seq<i64>)
    ensures
        (a + seq![d] + b).to_multiset() == a.to_multiset().insert(d).add(b.to_multiset()),
{
    broadcast use vstd::seq_lib::group_to_multiset_ensures;
    broadcast use vstd::multiset::group_multiset_axioms;

    assert(a + seq![d] =~= a.push(d));
    vstd::seq_lib::lemma_multiset_commutative(a.push(d), b);
    assert(a.push(d).to_multiset() =~= a.to_multiset().insert(d));
    assert((a + seq![d] + b).to_multiset() == (a.push(d) + b).to_multiset());
}

/// Inserting a value into the left part of `left + [d] + right` inserts it
/// into the whole, as multisets.
pub proof fn lemma_grow_left_multiset(sl: Seq<i64>, sl2: Seq<i64>, d: i64, sr: Seq<i64>, x: i64)
    requires
        sl2.to_multiset() == sl.to_multiset().insert(x),
    ensures
        (sl2 + seq![d] + sr).to_multiset() == (sl + seq![d] + sr).to_multiset().insert(x),
{
    broadcast use vstd::multiset::group_multiset_axioms;

    lemma_mid_multiset(sl, d, sr);
    lemma_mid_multiset(sl2, d, sr);
    assert(sl.to_multiset().insert(x).insert(d).add(sr.to_multiset()) =~= (sl.to_multiset()
        .insert(d)
        .add(sr.to_multiset())).insert(x));
}

/// Inserting a value into the right part of `left + [d] + right` inserts it
/// into the whole, as multisets.
pub proof fn lemma_grow_right_multiset(sl: Seq<i64>, d: i64, sr: Seq<i64>, sr2: Seq<i64>, x: i64)
    requires
        sr2.to_multiset() == sr.to_multiset().insert(x),
    ensures
        (sl + seq![d] + sr2).to_multiset() == (sl + seq![d] + sr).to_multiset().insert(x),
{
    broadcast use vstd::multiset::group_multiset_axioms;

    lemma_mid_multiset(sl, d, sr);
    lemma_mid_multiset(sl, d, sr2);
    assert(sl.to_multiset().insert(d).add(sr.to_multiset().insert(x)) =~= (sl.to_multiset()
        .insert(d)
        .add(sr.to_multiset())).insert(x));
}

/// The traversal entries carry exactly the in-order values: stripping the
/// depths from `spec_entries` leaves `seq_of`.
pub proof fn lemma_entries_values(t: Tree, d: int)
    ensures
        spec_entries(t, d).map_values(|p: (i64, i64)| p.1) == seq_of(t),
    decreases t,
{
    match t.0 {
        None => {
            assert(spec_entries(t, d).map_values(|p: (i64, i64)| p.1) =~= seq_of(t));
        },
        Some(n) => {
            lemma_entries_values(n.left, d + 1);
            lemma_entries_values(n.right, d + 1);
            assert(spec_entries(t, d) == spec_entries(n.left, d + 1) + seq![(d as i64, n.data)]
                + spec_entries(n.right, d + 1));
            assert(seq_of(t) == seq_of(n.left) + seq![n.data] + seq_of(n.right));
            assert(spec_entries(t, d).map_values(|p: (i64, i64)| p.1) =~= seq_of(t));
        },
    }
}

/// The multiset of a one-value sequence: one insertion into the empty multiset.
pub proof fn lemma_singleton_multiset(x: i64)
    ensures
        seq![x].to_multiset() == Seq::<i64>::empty().to_multiset().insert(x),
{
    broadcast use vstd::seq_lib::group_to_multiset_ensures;

    assert(seq![x] =~= Seq::<i64>::empty().push(x));
}

/// An upper bound on all values survives inserting a value under the bound.
pub proof fn lemma_at_most_after_insert(s: Seq<i64>, s2: Seq<i64>, x: i64, b: i64)
    requires
        s2.to_multiset() == s.to_multiset().insert(x),
        forall|i: int| 0 <= i < s.len() ==> #[trigger] s[i] <= b,
        x <= b,
    ensures
        forall|i: int| 0 <= i < s2.len() ==> #[trigger] s2[i] <= b,
{
    broadcast use vstd::seq_lib::group_to_multiset_ensures;
    broadcast use vstd::multiset::group_multiset_axioms;

    assert forall|i: int| 0 <= i < s2.len() implies #[trigger] s2[i] <= b by {
        let y = s2[i];
        assert(s2.contains(y));
        assert(s2.to_multiset().count(y) > 0);
        if y != x {
            assert(s.to_multiset().count(y) > 0);
            assert(s.contains(y));
            let j = choose|j: int| 0 <= j < s.len() && s[j] == y;
            assert(s[j] <= b);
        }
    }
}

/// A lower bound on all values survives inserting a value above the bound.
pub proof fn lemma_at_least_after_insert(s: Seq<i64>, s2: Seq<i64>, x: i64, b: i64)
    requires
        s2.to_multiset() == s.to_multiset().insert(x),
        forall|i: int| 0 <= i < s.len() ==> #[trigger] s[i] >= b,
        x >= b,
    ensures
        forall|i: int| 0 <= i < s2.len() ==> #[trigger] s2[i] >= b,
{
    broadcast use vstd::seq_lib::group_to_multiset_ensures;
    broadcast use vstd::multiset::group_multiset_axioms;

    assert forall|i: int| 0 <= i < s2.len() implies #[trigger] s2[i] >= b by {
        let y = s2[i];
        assert(s2.contains(y));
        assert(s2.to_multiset().count(y) > 0);
        if y != x {
            assert(s.to_multiset().count(y) > 0);
            assert(s.contains(y));
            let j = choose|j: int| 0 <= j < s.len() && s[j] == y;
            assert(s[j] >= b);
        }
    }
}

/// When the height bookkeeping is intact, the cached root height is the true height.
pub proof fn lemma_heights_ok_stored(t: Tree)
    requires
        heights_ok(t),
    ensures
        stored_height(t) == true_height(t),
{
}

/// Exact bookkeeping everywhere includes exact bookkeeping in both subtrees.
pub proof fn lemma_heights_ok_subtrees(t: Tree)
    requires
        heights_ok(t),
    ensures
        subtree_heights_ok(t),
{
}

/// Refreshing the root's cached height restores exact bookkeeping and
/// changes neither the stored values nor the shape below the root.
pub proof fn lemma_set_height(t: Tree)
    requires
        subtree_heights_ok(t),
        true_height(t) <= i64::MAX,
    ensures
        heights_ok(spec_set_height(t)),
        stored_height(spec_set_height(t)) == true_height(t),
        true_height(spec_set_height(t)) == true_height(t),
        seq_of(spec_set_height(t)) == seq_of(t),
        is_bst(spec_set_height(t)) == is_bst(t),
        t.0 is None ==> spec_set_height(t) == t,
{
    match t.0 {
        None => {},
        Some(n) => {
            lemma_heights_ok_stored(n.left);
            lemma_heights_ok_stored(n.right);
            let u = spec_set_height(t);
            assert(seq_of(u) == seq_of(t));
            assert(is_bst(u) == is_bst(t));
        },
    }
}

/// On a tree whose bookkeeping is already exact, the height fixup is a no-op.
pub proof fn lemma_set_height_noop(t: Tree)
    requires
        heights_ok(t),
    ensures
        spec_set_height(t) == t,
{
    match t.0 {
        None => {},
        Some(n) => {
            lemma_heights_ok_stored(n.left);
            lemma_heights_ok_stored(n.right);
        },
    }
}

/// A left rotation keeps the in-order sequence and the BST ordering, restores
/// exact height bookkeeping whenever it does real work, and does not raise
/// the true height when the tree is right-heavy. Without a right child it is
/// a no-op.
pub proof fn lemma_rot_left(t: Tree)
    requires
        subtree_heights_ok(t),
        true_height(t) + 1 <= i64::MAX,
    ensures
        seq_of(spec_rot_left(t)) == seq_of(t),
        is_bst(t) ==> is_bst(spec_rot_left(t)),
        has_right(t) ==> heights_ok(spec_rot_left(t)),
        has_right(t) ==> true_height(spec_rot_left(t)) <= true_height(t) + 1,
        has_right(t) ==> has_left(spec_rot_left(t)),
        heights_ok(t) ==> heights_ok(spec_rot_left(t)),
        right_heavy(t) ==> true_height(spec_rot_left(t)) <= true_height(t),
        !has_right(t) ==> spec_rot_left(t) == t,
{
    match t.0 {
        None => {},
        Some(n) => {
            match n.right.0 {
                None => {
                    assert(spec_node_rot_left(*n) == *n);
                    assert(spec_rot_left(t) == t);
                },
                Some(r) => {
                    lemma_heights_ok_stored(n.left);
                    lemma_heights_ok_stored(n.right);
                    lemma_heights_ok_stored(r.left);
                    lemma_heights_ok_stored(r.right);
                    assert(Tree(r.left.0) == r.left);
                    lemma_set_height_noop(r.left);
                    let dt = Tree(
                        Some(
                            Box::new(
                                Node { data: n.data, h: n.h, left: n.left, right: r.left },
                            ),
                        ),
                    );
                    assert(true_height(dt) <= true_height(t));
                    lemma_set_height(dt);
                    let demoted = spec_set_height(dt);
                    let m = spec_node_rot_left(*n);
                    assert(m.left == demoted && m.right == r.right && m.data == r.data);
                    let rt = spec_rot_left(t);
                    assert(rt == Tree(Some(Box::new(m))));

                    // Height bookkeeping of the rotated tree.
                    assert(true_height(t) == 1 + vstd::math::max(
                        true_height(n.left) as int,
                        true_height(n.right) as int,
                    ));
                    assert(true_height(n.right) == 1 + vstd::math::max(
                        true_height(r.left) as int,
                        true_height(r.right) as int,
                    ));
                    assert(1 + vstd::math::max(
                        true_height(demoted) as int,
                        true_height(r.right) as int,
                    ) <= true_height(t) + 1);
                    assert(has_right(t) ==> heights_ok(rt));
                    assert(demoted.0 is Some);
                    assert(has_left(rt));
                    assert(true_height(rt) == 1 + vstd::math::max(
                        true_height(demoted) as int,
                        true_height(r.right) as int,
                    ));

                    // The in-order sequence is unchanged: both sides flatten to
                    // seq_of(n.left) + [n.data] + seq_of(r.left) + [r.data] + seq_of(r.right).
                    assert(seq_of(demoted) == seq_of(dt));
                    assert(seq_of(dt) == seq_of(n.left) + seq![n.data] + seq_of(r.left));
                    assert(seq_of(rt) == seq_of(demoted) + seq![r.data] + seq_of(r.right));
                    assert(seq_of(t) == seq_of(n.left) + seq![n.data] + seq_of(n.right));
                    assert(seq_of(n.right) == seq_of(r.left) + seq![r.data] + seq_of(r.right));
                    assert(seq_of(rt) =~= seq_of(t));

                    // BST ordering is preserved.
                    if is_bst(t) {
                        assert(is_bst(n.left) && is_bst(n.right) && all_at_most(n.left, n.data)
                            && all_at_least(n.right, n.data));
                        assert(is_bst(r.left) && is_bst(r.right) && all_at_most(r.left, r.data)
                            && all_at_least(r.right, r.data));
                        let snr = seq_of(n.right);
                        let srl = seq_of(r.left);
                        assert(snr == srl + seq![r.data] + seq_of(r.right));
                        assert forall|i: int| 0 <= i < srl.len() implies #[trigger] srl[i]
                            >= n.data by {
                            assert(srl[i] == snr[i]);
                        }
                        assert(all_at_least(r.left, n.data));
                        assert(is_bst(dt));
                        assert(is_bst(demoted));
                        assert(n.data <= r.data) by {
                            assert(snr[srl.len() as int] == r.data);
                        }
                        let sd = seq_of(demoted);
                        assert(sd == seq_of(n.left) + seq![n.data] + srl);
                        assert forall|i: int| 0 <= i < sd.len() implies #[trigger] sd[i]
                            <= r.data by {
                            let sl = seq_of(n.left);
                            if i < sl.len() {
                                assert(sd[i] == sl[i]);
                                assert(sl[i] <= n.data);
                            } else if i == sl.len() {
                                assert(sd[i] == n.data);
                            } else {
                                assert(sd[i] == srl[i - sl.len() - 1]);
                                assert(snr[i - sl.len() - 1] <= r.data);
                            }
                        }
                        assert(all_at_most(demoted, r.data));
                        assert(is_bst(demoted) && is_bst(r.right) && all_at_most(demoted, r.data)
                            && all_at_least(r.right, r.data));
                        assert(is_bst(rt));
                    }

                    // Under the rotation trigger the true height does not grow.
                    if right_heavy(t) {
                        assert(true_height(n.right) >= true_height(n.left) + 2);
                        assert(true_height(demoted) <= true_height(n.right));
                        assert(true_height(rt) <= true_height(t));
                    }
                },
            }
        },
    }
}

/// Rotating left and then right, on a tree where the left rotation does real
/// work (the root has a right child, so the right rotation afterwards does
/// too), yields a tree that is again a valid BST over exactly the same
/// values — its in-order traversal is unchanged — though not necessarily of
/// the original shape.
pub proof fn lemma_rotate_left_then_right(t: Tree)
    requires
        subtree_heights_ok(t),
        is_bst(t),
        has_right(t),
        true_height(t) + 2 <= i64::MAX,
    ensures
        seq_of(spec_rot_right(spec_rot_left(t))) == seq_of(t),
        is_bst(spec_rot_right(spec_rot_left(t))),
        has_left(spec_rot_left(t)),
{
    lemma_rot_left(t);
    let u = spec_rot_left(t);
    lemma_heights_ok_subtrees(u);
    lemma_rot_right(u);
}

/// Rotating right and then left, on a tree where the right rotation does
/// real work (the root has a left child, so the left rotation afterwards
/// does too), yields a tree that is again a valid BST over exactly the same
/// values — its in-order traversal is unchanged — though not necessarily of
/// the original shape.
pub proof fn lemma_rotate_right_then_left(t: Tree)
    requires
        subtree_heights_ok(t),
        is_bst(t),
        has_left(t),
        true_height(t) + 2 <= i64::MAX,
    ensures
        seq_of(spec_rot_left(spec_rot_right(t))) == seq_of(t),
        is_bst(spec_rot_left(spec_rot_right(t))),
        has_right(spec_rot_right(t)),
{
    lemma_rot_right(t);
    let u = spec_rot_right(t);
    lemma_heights_ok_subtrees(u);
    lemma_rot_left(u);
}

/// A right rotation keeps the in-order sequence and the BST ordering,
/// restores exact height bookkeeping whenever it does real work, and does not
/// raise the true height when the tree is left-heavy. Without a left child it
/// is a no-op.
pub proof fn lemma_rot_right(t: Tree)
    requires
        subtree_heights_ok(t),
        true_height(t) + 1 <= i64::MAX,
    ensures
        seq_of(spec_rot_right(t)) == seq_of(t),
        is_bst(t) ==> is_bst(spec_rot_right(t)),
        has_left(t) ==> heights_ok(spec_rot_right(t)),
        has_left(t) ==> true_height(spec_rot_right(t)) <= true_height(t) + 1,
        has_left(t) ==> has_right(spec_rot_right(t)),
        heights_ok(t) ==> heights_ok(spec_rot_right(t)),
        left_heavy(t) ==> true_height(spec_rot_right(t)) <= true_height(t),
        !has_left(t) ==> spec_rot_right(t) == t,
{
    match t.0 {
        None => {},
        Some(n) => {
            match n.left.0 {
                None => {
                    assert(spec_node_rot_right(*n) == *n);
                    assert(spec_rot_right(t) == t);
                },
                Some(l) => {
                    lemma_heights_ok_stored(n.left);
                    lemma_heights_ok_stored(n.right);
                    lemma_heights_ok_stored(l.left);
                    lemma_heights_ok_stored(l.right);
                    assert(Tree(l.right.0) == l.right);
                    lemma_set_height_noop(l.right);
                    let dt = Tree(
                        Some(
                            Box::new(
                                Node { data: n.data, h: n.h, left: l.right, right: n.right },
                            ),
                        ),
                    );
                    assert(true_height(dt) <= true_height(t));
                    lemma_set_height(dt);
                    let demoted = spec_set_height(dt);
                    let m = spec_node_rot_right(*n);
                    assert(m.left == l.left && m.right == demoted && m.data == l.data);
                    let rt = spec_rot_right(t);
                    assert(rt == Tree(Some(Box::new(m))));

                    // Height bookkeeping of the rotated tree.
                    assert(true_height(t) == 1 + vstd::math::max(
                        true_height(n.left) as int,
                        true_height(n.right) as int,
                    ));
                    assert(true_height(n.left) == 1 + vstd::math::max(
                        true_height(l.left) as int,
                        true_height(l.right) as int,
                    ));
                    assert(1 + vstd::math::max(
                        true_height(l.left) as int,
                        true_height(demoted) as int,
                    ) <= true_height(t) + 1);
                    assert(has_left(t) ==> heights_ok(rt));
                    assert(demoted.0 is Some);
                    assert(has_right(rt));
                    assert(true_height(rt) == 1 + vstd::math::max(
                        true_height(l.left) as int,
                        true_height(demoted) as int,
                    ));

                    // The in-order sequence is unchanged: both sides flatten to
                    // seq_of(l.left) + [l.data] + seq_of(l.right) + [n.data] + seq_of(n.right).
                    assert(seq_of(demoted) == seq_of(dt));
                    assert(seq_of(dt) == seq_of(l.right) + seq![n.data] + seq_of(n.right));
                    assert(seq_of(rt) == seq_of(l.left) + seq![l.data] + seq_of(demoted));
                    assert(seq_of(t) == seq_of(n.left) + seq![n.data] + seq_of(n.right));
                    assert(seq_of(n.left) == seq_of(l.left) + seq![l.data] + seq_of(l.right));
                    assert(seq_of(rt) =~= seq_of(t));

                    // BST ordering is preserved.
                    if is_bst(t) {
                        assert(is_bst(n.left) && is_bst(n.right) && all_at_most(n.left, n.data)
                            && all_at_least(n.right, n.data));
                        assert(is_bst(l.left) && is_bst(l.right) && all_at_most(l.left, l.data)
                            && all_at_least(l.right, l.data));
                        let snl = seq_of(n.left);
                        let slr = seq_of(l.right);
                        assert(snl == seq_of(l.left) + seq![l.data] + slr);
                        assert forall|i: int| 0 <= i < slr.len() implies #[trigger] slr[i]
                            <= n.data by {
                            assert(slr[i] == snl[i + seq_of(l.left).len() + 1]);
                        }
                        assert(all_at_most(l.right, n.data));
                        assert(is_bst(dt));
                        assert(is_bst(demoted));
                        assert(l.data <= n.data) by {
                            assert(snl[seq_of(l.left).len() as int] == l.data);
                        }
                        let sd = seq_of(demoted);
                        assert(sd == slr + seq![n.data] + seq_of(n.right));
                        assert forall|i: int| 0 <= i < sd.len() implies #[trigger] sd[i]
                            >= l.data by {
                            if i < slr.len() {
                                assert(sd[i] == slr[i]);
                                assert(snl[i + seq_of(l.left).len() + 1] >= l.data);
                            } else if i == slr.len() {
                                assert(sd[i] == n.data);
                            } else {
                                assert(sd[i] == seq_of(n.right)[i - slr.len() - 1]);
                                assert(seq_of(n.right)[i - slr.len() - 1] >= n.data);
                            }
                        }
                        assert(all_at_least(demoted, l.data));
                        assert(is_bst(l.left) && is_bst(demoted) && all_at_most(l.left, l.data)
                            && all_at_least(demoted, l.data));
                        assert(is_bst(rt));
                    }

                    // Under the rotation trigger the true height does not grow.
                    if left_heavy(t) {
                        assert(true_height(n.left) >= true_height(n.right) + 2);
                        assert(true_height(demoted) <= true_height(n.left));
                        assert(true_height(rt) <= true_height(t));
                    }
                },
            }
        },
    }
}

} // verus!
