//! The mathematical model of the tree: true heights, the in-order value
//! sequence, the well-formedness predicates, and spec-level mirrors of each
//! mutating operation. Every executable contract is stated over these.

use crate::{Node, Tree};
use vstd::prelude::*;

verus! {

/// The height recorded at the root of `t`: the `h` field, or 0 when empty.
pub open spec fn stored_height(t: Tree) -> int {
    match t.0 {
        None => 0,
        Some(n) => n.h as int,
    }
}

/// The true height of `t`: nodes on the longest root-to-leaf path.
pub open spec fn true_height(t: Tree) -> nat
    decreases t,
{
    match t.0 {
        None => 0,
        Some(n) => (1 + vstd::math::max(
            true_height(n.left) as int,
            true_height(n.right) as int,
        )) as nat,
    }
}

/// The in-order traversal of `t` as a sequence of values.
pub open spec fn seq_of(t: Tree) -> Seq<i64>
    decreases t,
{
    match t.0 {
        None => Seq::empty(),
        Some(n) => seq_of(n.left) + seq![n.data] + seq_of(n.right),
    }
}

/// `s` is non-decreasing.
pub open spec fn sorted(s: Seq<i64>) -> bool {
    forall|i: int, j: int| 0 <= i < j < s.len() ==> s[i] <= s[j]
}

/// Every node of `t` caches exactly `1 + max(child heights)`.
pub open spec fn heights_ok(t: Tree) -> bool
    decreases t,
{
    match t.0 {
        None => true,
        Some(n) => heights_ok(n.left) && heights_ok(n.right) && n.h as int == 1
            + vstd::math::max(true_height(n.left) as int, true_height(n.right) as int),
    }
}

/// Both subtrees of the root cache correct heights; the root's own `h` may be
/// stale. This is the state a subtree is in right before its height fixup.
pub open spec fn subtree_heights_ok(t: Tree) -> bool {
    match t.0 {
        None => true,
        Some(n) => heights_ok(n.left) && heights_ok(n.right),
    }
}

/// Both child trees of the node cache correct heights everywhere.
pub open spec fn node_subtrees_ok(n: Node) -> bool {
    heights_ok(n.left) && heights_ok(n.right)
}

/// The true height of the subtree rooted at node `n`.
pub open spec fn node_true_height(n: Node) -> nat {
    (1 + vstd::math::max(true_height(n.left) as int, true_height(n.right) as int)) as nat
}

/// Every value stored in `t` is at most `b`.
pub open spec fn all_at_most(t: Tree, b: i64) -> bool {
    forall|i: int| 0 <= i < seq_of(t).len() ==> #[trigger] seq_of(t)[i] <= b
}

/// Every value stored in `t` is at least `b`.
pub open spec fn all_at_least(t: Tree, b: i64) -> bool {
    forall|i: int| 0 <= i < seq_of(t).len() ==> #[trigger] seq_of(t)[i] >= b
}

/// BST ordering with duplicates allowed: at every node, the left subtree
/// holds values at most the node's value and the right subtree holds values
/// at least it. Insertion routes ties right; a rotation may later move a
/// value equal to a node's value into its left subtree, so both sides are
/// non-strict.
pub open spec fn is_bst(t: Tree) -> bool
    decreases t,
{
    match t.0 {
        None => true,
        Some(n) => is_bst(n.left) && is_bst(n.right) && all_at_most(n.left, n.data)
            && all_at_least(n.right, n.data),
    }
}

/// At every node the two child heights differ by at most one.
pub open spec fn balanced(t: Tree) -> bool
    decreases t,
{
    match t.0 {
        None => true,
        Some(n) => balanced(n.left) && balanced(n.right) && -1 <= true_height(n.left) as int
            - true_height(n.right) as int <= 1,
    }
}

/// Well-formed: exact height bookkeeping and BST ordering.
pub open spec fn wf(t: Tree) -> bool {
    heights_ok(t) && is_bst(t)
}

/// The root has a right child, so a left rotation does real work.
pub open spec fn has_right(t: Tree) -> bool {
    match t.0 {
        None => false,
        Some(n) => n.right.0 is Some,
    }
}

/// The root has a left child, so a right rotation does real work.
pub open spec fn has_left(t: Tree) -> bool {
    match t.0 {
        None => false,
        Some(n) => n.left.0 is Some,
    }
}

/// The cached right height exceeds the cached left height by more than one:
/// the trigger for a left rotation after a right-side insertion.
pub open spec fn right_heavy(t: Tree) -> bool {
    match t.0 {
        None => false,
        Some(n) => stored_height(n.right) - stored_height(n.left) > 1,
    }
}

/// The cached left height exceeds the cached right height by more than one:
/// the trigger for a right rotation after a left-side insertion.
pub open spec fn left_heavy(t: Tree) -> bool {
    match t.0 {
        None => false,
        Some(n) => stored_height(n.left) - stored_height(n.right) > 1,
    }
}

/// Mirror of `Tree::set_height`: recompute the root's cached height from the
/// children's cached heights; identity on the empty tree.
pub open spec fn spec_set_height(t: Tree) -> Tree {
    match t.0 {
        None => t,
        Some(n) => Tree(
            Some(
                Box::new(
                    Node {
                        data: n.data,
                        h: (1 + vstd::math::max(
                            stored_height(n.left),
                            stored_height(n.right),
                        )) as i64,
                        left: n.left,
                        right: n.right,
                    },
                ),
            ),
        ),
    }
}

/// Mirror of `Node::rot_left`: the right child becomes the new root, the old
/// root becomes its left child, and the displaced subtree moves across; the
/// two relocated nodes get their heights recomputed. Identity when there is
/// no right child.
pub open spec fn spec_node_rot_left(n: Node) -> Node {
    match n.right.0 {
        None => n,
        Some(r) => {
            let moved = spec_set_height(Tree(r.left.0));
            let demoted = spec_set_height(
                Tree(
                    Some(Box::new(Node { data: n.data, h: n.h, left: n.left, right: moved })),
                ),
            );
            Node {
                data: r.data,
                h: (1 + vstd::math::max(stored_height(demoted), stored_height(r.right))) as i64,
                left: demoted,
                right: r.right,
            }
        },
    }
}

/// Mirror of `Node::rot_right`: symmetric to `spec_node_rot_left`.
pub open spec fn spec_node_rot_right(n: Node) -> Node {
    match n.left.0 {
        None => n,
        Some(l) => {
            let moved = spec_set_height(Tree(l.right.0));
            let demoted = spec_set_height(
                Tree(
                    Some(Box::new(Node { data: n.data, h: n.h, left: moved, right: n.right })),
                ),
            );
            Node {
                data: l.data,
                h: (1 + vstd::math::max(stored_height(l.left), stored_height(demoted))) as i64,
                left: l.left,
                right: demoted,
            }
        },
    }
}

/// Mirror of `Tree::rot_left`: rotate the root node; identity on the empty tree.
pub open spec fn spec_rot_left(t: Tree) -> Tree {
    match t.0 {
        None => t,
        Some(n) => Tree(Some(Box::new(spec_node_rot_left(*n)))),
    }
}

/// Mirror of `Tree::rot_right`: rotate the root node; identity on the empty tree.
pub open spec fn spec_rot_right(t: Tree) -> Tree {
    match t.0 {
        None => t,
        Some(n) => Tree(Some(Box::new(spec_node_rot_right(*n)))),
    }
}

/// Mirror of `Tree::add_sorted`: place the value as a leaf when the tree is
/// empty; otherwise insert strictly smaller values on the left and all others
/// on the right, then rotate once if the inserted side's cached height
/// exceeds the other side's by more than one, else just refresh the root's
/// cached height.
pub open spec fn spec_add(t: Tree, x: i64) -> Tree
    decreases t,
{
    match t.0 {
        None => spec_set_height(
            Tree(Some(Box::new(Node { data: x, h: 0, left: Tree(None), right: Tree(None) }))),
        ),
        Some(n) => if x < n.data {
            let grown = Tree(
                Some(
                    Box::new(
                        Node { data: n.data, h: n.h, left: spec_add(n.left, x), right: n.right },
                    ),
                ),
            );
            if left_heavy(grown) {
                spec_rot_right(grown)
            } else {
                spec_set_height(grown)
            }
        } else {
            let grown = Tree(
                Some(
                    Box::new(
                        Node { data: n.data, h: n.h, left: n.left, right: spec_add(n.right, x) },
                    ),
                ),
            );
            if right_heavy(grown) {
                spec_rot_left(grown)
            } else {
                spec_set_height(grown)
            }
        },
    }
}

/// In-order traversal as (depth, value) pairs, the root sitting at `d`.
pub open spec fn spec_entries(t: Tree, d: int) -> Seq<(i64, i64)>
    decreases t,
{
    match t.0 {
        None => Seq::empty(),
        Some(n) => spec_entries(n.left, d + 1) + seq![(d as i64, n.data)] + spec_entries(
            n.right,
            d + 1,
        ),
    }
}

} // verus!
