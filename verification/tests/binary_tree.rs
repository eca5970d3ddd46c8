use maestro::util::data_struct::binary_tree::{BinaryTree, NodeColor, Side};

fn tree_of(values: &[u32]) -> BinaryTree<u32> {
    let mut tree = BinaryTree::new();
    for (i, v) in values.iter().enumerate() {
        assert_eq!(tree.insert_with(*v, |held| v.cmp(held)), i);
    }
    tree
}

fn index_of(tree: &BinaryTree<u32>, value: u32) -> Option<usize> {
    tree.select(|node| value.cmp(node.get())).map(|node| node.index)
}

#[test]
fn empty_tree() {
    let tree = BinaryTree::<u32>::new();
    assert!(tree.get_root().is_none());
    assert_eq!(tree.nodes_count(), 0);
    assert_eq!(tree.get_depth(), 0);
    assert!(index_of(&tree, 3).is_none());
    assert!(tree.get_node(0).is_none());
}

#[test]
fn values_go_to_their_side() {
    let tree = tree_of(&[50, 30, 70, 20, 40, 60, 80, 30]);
    let root = tree.get_root().unwrap();
    assert_eq!(*root.get(), 50);
    assert_eq!((root.parent, root.left, root.right), (None, Some(1), Some(2)));
    assert_eq!(root.color, NodeColor::Red);
    assert_eq!(tree.get_left(0).map(|n| *n.get()), Some(30));
    assert_eq!(tree.get_right(0).map(|n| *n.get()), Some(70));
    assert_eq!(tree.get_left(1).map(|n| *n.get()), Some(20));
    assert_eq!(tree.get_right(1).map(|n| *n.get()), Some(40));
    assert_eq!(tree.get_left(4).map(|n| n.index), Some(7));
    assert_eq!(*tree.get_node(7).unwrap().get(), 30);
    assert!(tree.get_left(3).is_none());
    for value in [50, 30, 70, 20, 40, 60, 80] {
        let i = index_of(&tree, value).unwrap();
        assert_eq!(*tree.get_node(i).unwrap().get(), value);
    }
    assert_eq!(index_of(&tree, 30), Some(1));
    assert_eq!(index_of(&tree, 55), None);
}

#[test]
fn relatives() {
    let tree = tree_of(&[50, 30, 70, 20, 40, 60, 80]);
    assert!(tree.get_parent(0).is_none());
    assert!(tree.get_grandparent(0).is_none());
    assert!(tree.get_sibling(0).is_none());
    assert!(tree.get_uncle(0).is_none());
    assert_eq!(tree.get_parent(3).map(|n| *n.get()), Some(30));
    assert_eq!(tree.get_grandparent(3).map(|n| *n.get()), Some(50));
    assert_eq!(tree.get_sibling(3).map(|n| *n.get()), Some(40));
    assert_eq!(tree.get_sibling(4).map(|n| *n.get()), Some(20));
    assert_eq!(tree.get_uncle(3).map(|n| *n.get()), Some(70));
    assert_eq!(tree.get_uncle(6).map(|n| *n.get()), Some(30));
    assert_eq!(tree.get_sibling(1).map(|n| *n.get()), Some(70));
    assert!(tree.get_grandparent(1).is_none());
    assert!(tree.get_uncle(1).is_none());
    let lonely = tree_of(&[5, 3, 1]);
    assert!(lonely.get_sibling(1).is_none());
    assert!(lonely.get_uncle(2).is_none());
    assert_eq!(lonely.get_grandparent(2).map(|n| *n.get()), Some(5));
}

#[test]
fn counts_and_depths() {
    let tree = tree_of(&[50, 30, 70, 20, 40, 60, 80, 10]);
    assert_eq!(tree.nodes_count(), 8);
    assert_eq!(tree.nodes_count_of(1), 4);
    assert_eq!(tree.nodes_count_of(2), 3);
    assert_eq!(tree.nodes_count_of(3), 2);
    assert_eq!(tree.nodes_count_of(7), 1);
    assert_eq!(tree.subtree_size(None), 0);
    assert_eq!(tree.get_depth(), 5);
    assert_eq!(tree.get_depth_of(1), 3);
    assert_eq!(tree.get_depth_of(2), 2);
    assert_eq!(tree.get_depth_of(7), 1);
    assert!(tree.is_under(7, 0));
    assert!(tree.is_under(7, 1));
    assert!(tree.is_under(7, 7));
    assert!(!tree.is_under(7, 2));
    assert!(!tree.is_under(1, 7));
}

#[test]
fn binary_tree_node_rotate0() {
    let mut tree = tree_of(&[50, 30, 70, 60, 80]);
    tree.left_rotate(2);
    let pivot = tree.get_root().unwrap();
    assert_eq!(*pivot.get(), 70);
    assert_eq!((pivot.parent, pivot.left, pivot.right), (None, Some(0), Some(4)));
    let old_root = tree.get_node(0).unwrap();
    assert_eq!((old_root.parent, old_root.left, old_root.right), (Some(2), Some(1), Some(3)));
    assert_eq!(tree.get_node(3).unwrap().parent, Some(0));
    assert_eq!(tree.get_node(1).unwrap().parent, Some(0));
    assert_eq!(tree.get_node(4).unwrap().parent, Some(2));
    assert_eq!(tree.nodes_count(), 5);
    for value in [50, 30, 70, 60, 80] {
        assert!(index_of(&tree, value).is_some());
    }
    tree.right_rotate(0);
    let root = tree.get_root().unwrap();
    assert_eq!(*root.get(), 50);
    assert_eq!((root.parent, root.left, root.right), (None, Some(1), Some(2)));
    let pivot = tree.get_node(2).unwrap();
    assert_eq!((pivot.parent, pivot.left, pivot.right), (Some(0), Some(3), Some(4)));
    assert_eq!(tree.get_node(3).unwrap().parent, Some(2));
}

#[test]
fn rotation_below_the_root() {
    let mut tree = tree_of(&[50, 30, 20, 40, 35, 45]);
    tree.left_rotate(3);
    assert_eq!(tree.get_root().map(|n| n.index), Some(0));
    assert_eq!(tree.get_node(0).unwrap().left, Some(3));
    let pivot = tree.get_node(3).unwrap();
    assert_eq!((pivot.parent, pivot.left, pivot.right), (Some(0), Some(1), Some(5)));
    let below = tree.get_node(1).unwrap();
    assert_eq!((below.parent, below.left, below.right), (Some(3), Some(2), Some(4)));
    assert_eq!(tree.get_node(4).unwrap().parent, Some(1));
    assert_eq!(tree.nodes_count(), 6);
    assert_eq!(tree.nodes_count_of(1), 3);
    tree.right_rotate(1);
    assert_eq!(tree.get_node(0).unwrap().left, Some(1));
    assert_eq!(tree.get_node(1).unwrap().right, Some(3));
    assert_eq!(tree.get_node(3).unwrap().left, Some(4));
}

#[test]
fn values_can_be_changed_in_place() {
    let mut tree = tree_of(&[50, 30, 70]);
    *tree.get_root_mut().unwrap().get_mut() = 51;
    *tree.get_left_mut(0).unwrap().get_mut() = 31;
    *tree.get_right_mut(0).unwrap().get_mut() = 71;
    *tree.get_parent_mut(1).unwrap().get_mut() += 1;
    *tree.get_sibling_mut(1).unwrap().get_mut() += 1;
    assert!(tree.get_grandparent_mut(1).is_none());
    assert!(tree.get_uncle_mut(1).is_none());
    assert!(tree.follow_mut(None).is_none());
    let values: Vec<u32> = (0..3).map(|i| *tree.get_node(i).unwrap().get()).collect();
    assert_eq!(values, vec![52, 31, 72]);
    assert_eq!(tree.get_node(0).unwrap().left, Some(1));
}

#[test]
fn leaves_attach_where_there_is_room() {
    let mut tree = BinaryTree::<u8>::new();
    assert_eq!(tree.attach(None, 1), 0);
    assert_eq!(tree.attach(Some((0, Side::Right)), 2), 1);
    assert_eq!(tree.attach(Some((1, Side::Left)), 3), 2);
    assert_eq!(tree.get_root().map(|n| *n.get()), Some(1));
    assert_eq!(tree.get_right(0).map(|n| *n.get()), Some(2));
    assert_eq!(tree.get_left(1).map(|n| *n.get()), Some(3));
    assert_eq!(tree.get_parent(2).map(|n| *n.get()), Some(2));
    assert_eq!(tree.get_depth(), 3);
}
