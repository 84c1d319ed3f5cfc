//! A height-balanced binary search tree over `i64` values.
//!
//! The tree keeps a cached height in every node, routes duplicate values to
//! the right subtree, and rebalances after each insertion with a single left
//! or right rotation keyed on which side's height overflowed. Deliberately,
//! no double rotations are performed; repeated single rotations keep the
//! bookkeeping exact (see `model::heights_ok`) and the ordering intact (see
//! `model::is_bst`), though a single insertion may leave one node with a
//! child-height difference above one.

use vstd::prelude::*;

pub mod laws;
pub mod model;

use crate::model::{
    all_at_least, all_at_most, balanced, has_left, has_right, heights_ok, is_bst, left_heavy,
    node_subtrees_ok, node_true_height, right_heavy, seq_of, sorted, spec_add, spec_entries,
    spec_node_rot_left, spec_node_rot_right, spec_rot_left, spec_rot_right, spec_set_height,
    stored_height, subtree_heights_ok, true_height, wf,
};

verus! {

/// A binary search (sub)tree, possibly empty: the optional root node.
pub struct Tree(pub Option<Box<Node>>);

/// One stored value, its cached subtree height, and two owned child trees.
pub struct Node {
    pub data: i64,
    pub h: i64,
    pub left: Tree,
    pub right: Tree,
}

impl Tree {
    /// Creates an empty tree.
    pub fn new() -> (r: Tree)
        ensures
            r.0 is None,
            wf(r),
            balanced(r),
            seq_of(r) == Seq::<i64>::empty(),
            true_height(r) == 0,
    {
        Tree(None)
    }

    /// The cached height at the root: 0 for the empty tree. When the height
    /// bookkeeping is intact this is the true height, in O(1).
    pub fn height(&self) -> (r: i64)
        ensures
            r == stored_height(*self),
            heights_ok(*self) ==> r == true_height(*self),
    {
        proof {
            if heights_ok(*self) {
                crate::laws::lemma_heights_ok_stored(*self);
            }
        }
        match &self.0 {
            None => 0,
            Some(n) => n.h,
        }
    }

    /// Recomputes and stores the root's height as one more than the larger
    /// child height; no-op on an empty tree. Restores the height invariant
    /// after the children may have changed height.
    pub fn set_height(&mut self)
        requires
            subtree_heights_ok(*old(self)),
            true_height(*old(self)) <= i64::MAX,
        ensures
            *final(self) == spec_set_height(*old(self)),
            heights_ok(*final(self)),
            true_height(*final(self)) == true_height(*old(self)),
            seq_of(*final(self)) == seq_of(*old(self)),
            is_bst(*final(self)) == is_bst(*old(self)),
    {
        proof {
            crate::laws::lemma_set_height(*old(self));
        }
        match self.0.take() {
            None => {},
            Some(mut n) => {
                proof {
                    crate::laws::lemma_heights_ok_stored(n.left);
                    crate::laws::lemma_heights_ok_stored(n.right);
                }
                let hl: i64 = n.left.height();
                let hr: i64 = n.right.height();
                n.h = 1 + if hl > hr {
                    hl
                } else {
                    hr
                };
                self.0 = Some(n);
            },
        }
    }

    /// Inserts `data`, keeping BST ordering and exact height bookkeeping:
    /// strictly smaller values go left, all others (duplicates included) go
    /// right. After the recursive insertion, if the inserted side's height
    /// exceeds the other side's by more than one, the subtree is rotated once
    /// toward the other side; otherwise only the root's cached height is
    /// refreshed. Insertion always succeeds; it adds exactly the given value,
    /// the traversal stays sorted, and the height grows by at most one.
    pub fn add_sorted(&mut self, data: i64)
        requires
            wf(*old(self)),
            true_height(*old(self)) + 2 <= i64::MAX,
        ensures
            *final(self) == spec_add(*old(self), data),
            wf(*final(self)),
            seq_of(*final(self)).to_multiset() == seq_of(*old(self)).to_multiset().insert(data),
            seq_of(*final(self)).len() == seq_of(*old(self)).len() + 1,
            sorted(seq_of(*final(self))),
            true_height(*final(self)) <= true_height(*old(self)) + 1,
        decreases *old(self),
    {
        let ghost t0 = *old(self);
        match self.0.take() {
            None => {
                self.0 = Some(Box::new(Node::new(data)));
                proof {
                    let leaf = Tree(
                        Some(
                            Box::new(
                                Node { data, h: 0i64, left: Tree(None), right: Tree(None) },
                            ),
                        ),
                    );
                    assert(*self == leaf);
                    assert(heights_ok(Tree(None)));
                    assert(true_height(leaf) == 1);
                }
                self.set_height();
                proof {
                    let leaf = Tree(
                        Some(
                            Box::new(
                                Node { data, h: 0i64, left: Tree(None), right: Tree(None) },
                            ),
                        ),
                    );
                    assert(t0 == Tree(None));
                    assert(spec_add(t0, data) == spec_set_height(leaf));
                    assert(seq_of(leaf) =~= seq![data]);
                    assert(seq_of(t0) == Seq::<i64>::empty());
                    crate::laws::lemma_singleton_multiset(data);
                    assert(all_at_most(Tree(None), data) && all_at_least(Tree(None), data));
                    assert(is_bst(leaf));
                }
            },
            Some(mut n) => {
                proof {
                    assert(heights_ok(n.left) && heights_ok(n.right) && n.h as int == 1
                        + vstd::math::max(true_height(n.left) as int, true_height(n.right) as int));
                    assert(is_bst(n.left) && is_bst(n.right) && all_at_most(n.left, n.data)
                        && all_at_least(n.right, n.data));
                    assert(seq_of(t0) == seq_of(n.left) + seq![n.data] + seq_of(n.right));
                    crate::laws::lemma_heights_ok_stored(n.left);
                    crate::laws::lemma_heights_ok_stored(n.right);
                }
                let ghost nd = n.data;
                let ghost nh = n.h;
                if data < n.data {
                    let ghost l0 = n.left;
                    let ghost r0 = n.right;
                    n.left.add_sorted(data);
                    let ghost l2 = n.left;
                    let hl: i64 = n.left.height();
                    let hr: i64 = n.right.height();
                    let rotate: bool = hl - hr > 1;
                    self.0 = Some(n);
                    let ghost grown = Tree(
                        Some(Box::new(Node { data: nd, h: nh, left: l2, right: r0 })),
                    );
                    proof {
                        assert(*self == grown);
                        crate::laws::lemma_heights_ok_stored(l2);
                        assert(hl == stored_height(l2) && hr == stored_height(r0));
                        assert(subtree_heights_ok(grown));
                        assert(true_height(grown) == 1 + vstd::math::max(
                            true_height(l2) as int,
                            true_height(r0) as int,
                        ));
                        assert(true_height(grown) <= true_height(t0) + 1);
                        crate::laws::lemma_at_most_after_insert(
                            seq_of(l0),
                            seq_of(l2),
                            data,
                            nd,
                        );
                        assert(is_bst(l2) && is_bst(r0) && all_at_most(l2, nd) && all_at_least(
                            r0,
                            nd,
                        ));
                        assert(is_bst(grown));
                        assert(seq_of(grown) == seq_of(l2) + seq![nd] + seq_of(r0));
                        crate::laws::lemma_grow_left_multiset(
                            seq_of(l0),
                            seq_of(l2),
                            nd,
                            seq_of(r0),
                            data,
                        );
                        assert(rotate == left_heavy(grown));
                    }
                    if rotate {
                        proof {
                            if l2.0 is None {
                                assert(true_height(l2) == 0);
                            }
                            assert(has_left(grown));
                        }
                        self.rot_right();
                        proof {
                            assert(spec_add(t0, data) == spec_rot_right(grown));
                            crate::laws::lemma_bst_sorted(*self);
                        }
                    } else {
                        self.set_height();
                        proof {
                            assert(spec_add(t0, data) == spec_set_height(grown));
                            crate::laws::lemma_bst_sorted(*self);
                        }
                    }
                } else {
                    let ghost l0 = n.left;
                    let ghost r0 = n.right;
                    n.right.add_sorted(data);
                    let ghost r2 = n.right;
                    let hl: i64 = n.left.height();
                    let hr: i64 = n.right.height();
                    let rotate: bool = hr - hl > 1;
                    self.0 = Some(n);
                    let ghost grown = Tree(
                        Some(Box::new(Node { data: nd, h: nh, left: l0, right: r2 })),
                    );
                    proof {
                        assert(*self == grown);
                        crate::laws::lemma_heights_ok_stored(r2);
                        assert(hl == stored_height(l0) && hr == stored_height(r2));
                        assert(subtree_heights_ok(grown));
                        assert(true_height(grown) == 1 + vstd::math::max(
                            true_height(l0) as int,
                            true_height(r2) as int,
                        ));
                        assert(true_height(grown) <= true_height(t0) + 1);
                        crate::laws::lemma_at_least_after_insert(
                            seq_of(r0),
                            seq_of(r2),
                            data,
                            nd,
                        );
                        assert(is_bst(l0) && is_bst(r2) && all_at_most(l0, nd) && all_at_least(
                            r2,
                            nd,
                        ));
                        assert(is_bst(grown));
                        assert(seq_of(grown) == seq_of(l0) + seq![nd] + seq_of(r2));
                        crate::laws::lemma_grow_right_multiset(
                            seq_of(l0),
                            nd,
                            seq_of(r0),
                            seq_of(r2),
                            data,
                        );
                        assert(rotate == right_heavy(grown));
                    }
                    if rotate {
                        proof {
                            if r2.0 is None {
                                assert(true_height(r2) == 0);
                            }
                            assert(has_right(grown));
                        }
                        self.rot_left();
                        proof {
                            assert(spec_add(t0, data) == spec_rot_left(grown));
                            crate::laws::lemma_bst_sorted(*self);
                        }
                    } else {
                        self.set_height();
                        proof {
                            assert(spec_add(t0, data) == spec_set_height(grown));
                            crate::laws::lemma_bst_sorted(*self);
                        }
                    }
                }
            },
        }
    }

    /// Replaces the root with its left rotation; no-op on an empty tree or
    /// when the root has no right child.
    pub fn rot_left(&mut self)
        requires
            subtree_heights_ok(*old(self)),
            true_height(*old(self)) + 1 <= i64::MAX,
        ensures
            *final(self) == spec_rot_left(*old(self)),
            seq_of(*final(self)) == seq_of(*old(self)),
            is_bst(*old(self)) ==> is_bst(*final(self)),
            has_right(*old(self)) ==> heights_ok(*final(self)),
            heights_ok(*old(self)) ==> heights_ok(*final(self)),
            right_heavy(*old(self)) ==> true_height(*final(self)) <= true_height(*old(self)),
            !has_right(*old(self)) ==> *final(self) == *old(self),
    {
        proof {
            crate::laws::lemma_rot_left(*old(self));
        }
        match self.0.take() {
            None => {},
            Some(n) => {
                let node: Node = *n;
                self.0 = Some(node.rot_left());
            },
        }
    }

    /// Replaces the root with its right rotation; no-op on an empty tree or
    /// when the root has no left child.
    pub fn rot_right(&mut self)
        requires
            subtree_heights_ok(*old(self)),
            true_height(*old(self)) + 1 <= i64::MAX,
        ensures
            *final(self) == spec_rot_right(*old(self)),
            seq_of(*final(self)) == seq_of(*old(self)),
            is_bst(*old(self)) ==> is_bst(*final(self)),
            has_left(*old(self)) ==> heights_ok(*final(self)),
            heights_ok(*old(self)) ==> heights_ok(*final(self)),
            left_heavy(*old(self)) ==> true_height(*final(self)) <= true_height(*old(self)),
            !has_left(*old(self)) ==> *final(self) == *old(self),
    {
        proof {
            crate::laws::lemma_rot_right(*old(self));
        }
        match self.0.take() {
            None => {},
            Some(n) => {
                let node: Node = *n;
                self.0 = Some(node.rot_right());
            },
        }
    }

    /// The in-order traversal as (depth, value) pairs, the root counted at
    /// `depth` and each level below one deeper. The values appear in the
    /// same order as the in-order value sequence; on a BST they are sorted.
    pub fn sorted_entries(&self, depth: i64) -> (r: Vec<(i64, i64)>)
        requires
            depth + true_height(*self) <= i64::MAX,
        ensures
            r@ == spec_entries(*self, depth as int),
            r@.len() == seq_of(*self).len(),
            r@.map_values(|p: (i64, i64)| p.1) == seq_of(*self),
            is_bst(*self) ==> sorted(r@.map_values(|p: (i64, i64)| p.1)),
        decreases *self,
    {
        proof {
            crate::laws::lemma_entries_values(*self, depth as int);
            if is_bst(*self) {
                crate::laws::lemma_bst_sorted(*self);
            }
        }
        match &self.0 {
            None => Vec::new(),
            Some(n) => {
                proof {
                    assert(true_height(*self) == 1 + vstd::math::max(
                        true_height(n.left) as int,
                        true_height(n.right) as int,
                    ));
                }
                let mut out = n.left.sorted_entries(depth + 1);
                out.push((depth, n.data));
                let mut tail = n.right.sorted_entries(depth + 1);
                out.append(&mut tail);
                proof {
                    assert(out@ =~= spec_entries(*self, depth as int));
                }
                out
            },
        }
    }

    /// Reports whether at every node the two child heights differ by at most
    /// one. The single-rotation rebalancer keeps this true on many insertion
    /// orders but not on all of them, so it is checked, not assumed.
    pub fn is_balanced(&self) -> (r: bool)
        requires
            heights_ok(*self),
        ensures
            r == balanced(*self),
        decreases *self,
    {
        match &self.0 {
            None => true,
            Some(n) => {
                proof {
                    crate::laws::lemma_heights_ok_stored(n.left);
                    crate::laws::lemma_heights_ok_stored(n.right);
                }
                let hl: i64 = n.left.height();
                let hr: i64 = n.right.height();
                let d: i64 = hl - hr;
                -1 <= d && d <= 1 && n.left.is_balanced() && n.right.is_balanced()
            },
        }
    }
}

impl Node {
    /// A fresh childless node. Its height field starts at 0 and is corrected
    /// to 1 by the enclosing tree's height fixup.
    pub fn new(data: i64) -> (r: Node)
        ensures
            r == (Node { data, h: 0i64, left: Tree(None), right: Tree(None) }),
    {
        Node { data, h: 0, left: Tree::new(), right: Tree::new() }
    }

    /// Consumes this node and returns the root of its left rotation: the
    /// right child is lifted to the root, this node is demoted to its left
    /// child, and the lifted node's former left subtree moves across; the
    /// heights of the two relocated nodes are recomputed. If there is no
    /// right child the node is returned unchanged.
    pub fn rot_left(self) -> (r: Box<Node>)
        requires
            node_subtrees_ok(self),
            node_true_height(self) + 1 <= i64::MAX,
        ensures
            *r == spec_node_rot_left(self),
    {
        let mut this = self;
        let mut res: Box<Node> = match this.right.0.take() {
            Some(r) => r,
            None => {
                return Box::new(this);
            },
        };
        proof {
            crate::laws::lemma_heights_ok_stored(this.left);
            crate::laws::lemma_heights_ok_stored(res.left);
            crate::laws::lemma_heights_ok_stored(res.right);
            crate::laws::lemma_heights_ok_subtrees(res.left);
            assert(Tree(res.left.0) == res.left);
        }
        this.right = Tree(res.left.0.take());
        this.right.set_height();
        res.left = Tree(Some(Box::new(this)));
        res.left.set_height();
        let hl: i64 = res.left.height();
        let hr: i64 = res.right.height();
        res.h = 1 + if hl > hr {
            hl
        } else {
            hr
        };
        res
    }

    /// Consumes this node and returns the root of its right rotation, the
    /// mirror image of `rot_left`. If there is no left child the node is
    /// returned unchanged.
    pub fn rot_right(self) -> (r: Box<Node>)
        requires
            node_subtrees_ok(self),
            node_true_height(self) + 1 <= i64::MAX,
        ensures
            *r == spec_node_rot_right(self),
    {
        let mut this = self;
        let mut res: Box<Node> = match this.left.0.take() {
            Some(l) => l,
            None => {
                return Box::new(this);
            },
        };
        proof {
            crate::laws::lemma_heights_ok_stored(this.right);
            crate::laws::lemma_heights_ok_stored(res.left);
            crate::laws::lemma_heights_ok_stored(res.right);
            crate::laws::lemma_heights_ok_subtrees(res.right);
            assert(Tree(res.right.0) == res.right);
        }
        this.left = Tree(res.right.0.take());
        this.left.set_height();
        res.right = Tree(Some(Box::new(this)));
        res.right.set_height();
        let hl: i64 = res.left.height();
        let hr: i64 = res.right.height();
        res.h = 1 + if hl > hr {
            hl
        } else {
            hr
        };
        res
    }
}

} // verus!
