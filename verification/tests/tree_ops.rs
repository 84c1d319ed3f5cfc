use balanced_tree::{Node, Tree};

fn values(t: &Tree) -> Vec<i64> {
    let mut v: Vec<i64> = Vec::new();
    for e in t.sorted_entries(0) {
        v.push(e.1);
    }
    v
}

fn entries(t: &Tree) -> Vec<(i64, i64)> {
    t.sorted_entries(0)
}

#[test]
fn it_works() {
    let mut t = Tree::new();
    for v in 1i64..1000 {
        t.add_sorted(v);
    }
    for e in t.sorted_entries(0) {
        let mut line = String::new();
        for _ in 0..e.0 {
            line.push('.');
        }
        println!("{}{:?}", line, e.1);
    }
}

#[test]
fn test_node_rot_left() {
    let mut t = Tree::new();
    for v in vec![5i64, 3, 4, 2, 7, 6, 8] {
        t.add_sorted(v);
    }
    for e in t.sorted_entries(0) {
        let mut line = String::new();
        for _ in 0..e.0 {
            line.push('.');
        }
        println!("{}{:?}", line, e.1);
    }
}

#[test]
fn empty_tree_is_empty() {
    let t = Tree::new();
    assert_eq!(t.height(), 0);
    assert!(values(&t).is_empty());
    assert!(t.is_balanced());
}

#[test]
fn single_insert_makes_a_leaf() {
    let mut t = Tree::new();
    t.add_sorted(42);
    assert_eq!(t.height(), 1);
    assert_eq!(entries(&t), vec![(0i64, 42i64)]);
    assert!(t.is_balanced());
}

#[test]
fn rotations_on_empty_tree_are_noops() {
    let mut t = Tree::new();
    t.rot_left();
    assert_eq!(t.height(), 0);
    assert!(values(&t).is_empty());
    t.rot_right();
    assert_eq!(t.height(), 0);
    assert!(values(&t).is_empty());
    t.set_height();
    assert_eq!(t.height(), 0);
}

#[test]
fn rot_left_without_right_child_is_a_noop() {
    let mut t = Tree::new();
    t.add_sorted(2);
    t.add_sorted(1);
    let before = entries(&t);
    let h = t.height();
    t.rot_left();
    assert_eq!(entries(&t), before);
    assert_eq!(t.height(), h);
}

#[test]
fn rot_right_without_left_child_is_a_noop() {
    let mut t = Tree::new();
    t.add_sorted(1);
    t.add_sorted(2);
    let before = entries(&t);
    let h = t.height();
    t.rot_right();
    assert_eq!(entries(&t), before);
    assert_eq!(t.height(), h);
}

#[test]
fn node_rot_left_without_right_child_returns_it_unchanged() {
    let n = Node::new(7);
    let r = n.rot_left();
    assert_eq!(r.data, 7);
    assert_eq!(r.h, 0);
    assert!(r.left.0.is_none());
    assert!(r.right.0.is_none());
}

#[test]
fn rotating_left_then_right_keeps_the_values_sorted() {
    let mut t = Tree::new();
    t.add_sorted(2);
    t.add_sorted(1);
    t.add_sorted(3);
    t.rot_left();
    assert_eq!(values(&t), vec![1i64, 2, 3]);
    t.rot_right();
    assert_eq!(values(&t), vec![1i64, 2, 3]);
}

#[test]
fn rotating_right_then_left_keeps_the_values_sorted() {
    let mut t = Tree::new();
    t.add_sorted(2);
    t.add_sorted(1);
    t.add_sorted(3);
    t.rot_right();
    assert_eq!(values(&t), vec![1i64, 2, 3]);
    t.rot_left();
    assert_eq!(values(&t), vec![1i64, 2, 3]);
}
