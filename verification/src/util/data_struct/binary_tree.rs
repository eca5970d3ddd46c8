//! This module implements a binary tree utility.
//!
//! The nodes of a tree stand in one table, and name one another by their
//! index in it: a node knows its parent and its two children.

use std::cmp::Ordering;
use vstd::prelude::*;

verus! {

/// The color of a binary tree node.
#[derive(Clone, Copy, Debug, PartialEq, Eq, Structural)]
pub enum NodeColor {
    /// The node is black.
    Black,
    /// The node is red.
    Red,
}

/// A side of a node.
#[derive(Clone, Copy, Debug, PartialEq, Eq, Structural)]
pub enum Side {
    /// The side of the left child.
    Left,
    /// The side of the right child.
    Right,
}

/// A node of a binary tree, which holds a value.
pub struct BinaryTreeNode<T> {
    /// The index of the node in the table of its tree.
    pub index: usize,
    /// The index of the parent node.
    pub parent: Option<usize>,
    /// The index of the left child.
    pub left: Option<usize>,
    /// The index of the right child.
    pub right: Option<usize>,
    /// The color of the node.
    pub color: NodeColor,
    /// The value that the node holds.
    pub value: T,
}

/// A binary tree.
pub struct BinaryTree<T> {
    /// The nodes of the tree.
    pub nodes: Vec<BinaryTreeNode<T>>,
    /// The index of the root node of the binary tree.
    pub root: Option<usize>,
    /// For each node, a number that is above those of its children.
    pub ranks: Ghost<Seq<nat>>,
    /// A number that is above those of all nodes.
    pub bound: Ghost<nat>,
}

impl<T> BinaryTreeNode<T> {
    /// Returns a reference to the item that the node of the tree holds.
    pub fn get(&self) -> (v: &T)
        ensures
            *v == self.value,
    {
        &self.value
    }

    /// Returns a mutable reference to the item that the node of the tree
    /// holds.
    pub fn get_mut(&mut self) -> (v: &mut T)
        ensures
            *v == old(self).value,
            *final(self) == (BinaryTreeNode { value: *final(v), ..*old(self) }),
    {
        &mut self.value
    }

    /// Tells whether node `c` is a child of the node.
    pub open spec fn has_child(&self, c: int) -> bool {
        self.left == Some(c as usize) || self.right == Some(c as usize)
    }
}

impl<T> BinaryTree<T> {
    /// Tells whether `i` is the index of a node.
    pub open spec fn has(&self, i: int) -> bool {
        0 <= i < self.nodes@.len()
    }

    /// Tells whether the link `link` names a node, if it names one.
    pub open spec fn known(&self, link: Option<usize>) -> bool {
        link matches Some(i) ==> self.has(i as int)
    }

    /// Tells whether node `i` is in order:
    /// - it knows its index, and its links name nodes;
    /// - its children are two nodes, which have it for their parent;
    /// - its parent has it for a child;
    /// - its number is above those of its children.
    pub open spec fn node_ok(&self, i: int) -> bool {
        let n = self.nodes@[i];
        &&& n.index == i
        &&& self.known(n.parent) && self.known(n.left) && self.known(n.right)
        &&& n.left matches Some(l) ==> self.nodes@[l as int].parent == Some(i as usize)
            && self.ranks@[l as int] < self.ranks@[i] && n.right != Some(l)
        &&& n.right matches Some(r) ==> self.nodes@[r as int].parent == Some(i as usize)
            && self.ranks@[r as int] < self.ranks@[i]
        &&& n.parent matches Some(p) ==> self.nodes@[p as int].has_child(i)
        &&& self.ranks@[i] < self.bound@
    }

    /// The invariant of the tree: each node is in order, and the root is a
    /// node without parent.
    pub open spec fn wf(&self) -> bool {
        &&& self.ranks@.len() == self.nodes@.len()
        &&& forall|i: int| self.has(i) ==> #[trigger] self.node_ok(i)
        &&& self.root matches Some(r) ==> self.has(r as int) && self.nodes@[r as int].parent.is_none()
    }

    /// Tells whether node `j` is in the subtree of node `a`: it is the node,
    /// or its parent is in the subtree.
    pub open spec fn under(&self, j: int, a: int) -> bool
        decreases self.bound@ - self.ranks@[j],
    {
        if !(self.has(j) && self.node_ok(j)) {
            false
        } else if j == a {
            true
        } else {
            match self.nodes@[j].parent {
                Some(p) => if self.has(p as int) && self.node_ok(p as int) {
                    self.under(p as int, a)
                } else {
                    false
                },
                None => false,
            }
        }
    }

    /// The number of the first `n` nodes that are in the subtree of node `a`.
    pub open spec fn count_under(&self, a: int, n: int) -> nat
        decreases n,
    {
        if n <= 0 {
            0
        } else {
            self.count_under(a, n - 1) + if self.under(n - 1, a) {
                1nat
            } else {
                0nat
            }
        }
    }

    /// The number of nodes in the subtree of the node that `link` names, if
    /// it names one.
    pub open spec fn size(&self, link: Option<usize>) -> nat {
        match link {
            Some(a) => self.count_under(a as int, self.nodes@.len() as int),
            None => 0,
        }
    }

    /// The first `n` nodes count no more than `n` nodes in a subtree.
    pub proof fn lemma_count_most(&self, a: int, n: int)
        requires
            0 <= n,
        ensures
            self.count_under(a, n) <= n,
        decreases n,
    {
        if n > 0 {
            self.lemma_count_most(a, n - 1);
        }
    }

    /// A node of a subtree has a number that is not above that of the node
    /// that the subtree begins at.
    pub proof fn lemma_under_rank(&self, j: int, a: int)
        requires
            self.under(j, a),
        ensures
            self.ranks@[j] <= self.ranks@[a],
        decreases self.bound@ - self.ranks@[j],
    {
        if j != a {
            let p = self.nodes@[j].parent->0 as int;
            self.lemma_under_rank(p, a);
        }
    }

    /// The first `n` nodes count fewer than `n` nodes in a subtree that one
    /// of them is not in.
    pub proof fn lemma_count_less(&self, a: int, n: int, out: int)
        requires
            0 <= out < n,
            !self.under(out, a),
        ensures
            self.count_under(a, n) < n,
        decreases n,
    {
        if out == n - 1 {
            self.lemma_count_most(a, n - 1);
        } else {
            self.lemma_count_less(a, n - 1, out);
        }
    }

    /// Creates a new binary tree.
    pub fn new() -> (tree: Self)
        ensures
            tree.wf(),
            tree.nodes@.len() == 0,
            tree.root.is_none(),
    {
        BinaryTree { nodes: Vec::new(), root: None, ranks: Ghost(Seq::empty()), bound: Ghost(0) }
    }

    /// Returns a reference to the root node.
    pub fn get_root(&self) -> (r: Option<&BinaryTreeNode<T>>)
        requires
            self.wf(),
        ensures
            self.link(self.root, r),
    {
        self.follow(self.root)
    }

    /// Tells whether `r` is the node that the link `link` names, if it names
    /// one.
    pub open spec fn link(&self, link: Option<usize>, r: Option<&BinaryTreeNode<T>>) -> bool {
        match link {
            Some(i) => r matches Some(n) && *n == self.nodes@[i as int],
            None => r.is_none(),
        }
    }

    /// Returns the node that the link `link` names, if it names one.
    pub fn follow(&self, link: Option<usize>) -> (r: Option<&BinaryTreeNode<T>>)
        requires
            self.known(link),
        ensures
            self.link(link, r),
    {
        match link {
            Some(i) => Some(&self.nodes[i]),
            None => None,
        }
    }

    /// Returns a reference to the node of index `i`, if there is one.
    pub fn get_node(&self, i: usize) -> (r: Option<&BinaryTreeNode<T>>)
        ensures
            match r {
                Some(n) => self.has(i as int) && *n == self.nodes@[i as int],
                None => !self.has(i as int),
            },
    {
        if i < self.nodes.len() {
            Some(&self.nodes[i])
        } else {
            None
        }
    }

    /// The parent of node `i`.
    pub open spec fn parent(&self, i: int) -> Option<usize> {
        self.nodes@[i].parent
    }

    /// The parent of the parent of node `i`.
    pub open spec fn grandparent(&self, i: int) -> Option<usize> {
        match self.parent(i) {
            Some(p) => self.parent(p as int),
            None => None,
        }
    }

    /// The other child of the parent of node `i`.
    pub open spec fn sibling(&self, i: int) -> Option<usize> {
        match self.parent(i) {
            Some(p) => if self.nodes@[p as int].left == Some(i as usize) {
                self.nodes@[p as int].right
            } else {
                self.nodes@[p as int].left
            },
            None => None,
        }
    }

    /// The other child of the grandparent of node `i`: the sibling of its
    /// parent.
    pub open spec fn uncle(&self, i: int) -> Option<usize> {
        match self.parent(i) {
            Some(p) => self.sibling(p as int),
            None => None,
        }
    }

    /// Returns a reference to the parent of node `i`.
    pub fn get_parent(&self, i: usize) -> (r: Option<&BinaryTreeNode<T>>)
        requires
            self.wf(),
            self.has(i as int),
        ensures
            self.link(self.parent(i as int), r),
    {
        assert(self.node_ok(i as int));
        self.follow(self.nodes[i].parent)
    }

    /// Returns a reference to the left child of node `i`.
    pub fn get_left(&self, i: usize) -> (r: Option<&BinaryTreeNode<T>>)
        requires
            self.wf(),
            self.has(i as int),
        ensures
            self.link(self.nodes@[i as int].left, r),
    {
        assert(self.node_ok(i as int));
        self.follow(self.nodes[i].left)
    }

    /// Returns a reference to the right child of node `i`.
    pub fn get_right(&self, i: usize) -> (r: Option<&BinaryTreeNode<T>>)
        requires
            self.wf(),
            self.has(i as int),
        ensures
            self.link(self.nodes@[i as int].right, r),
    {
        assert(self.node_ok(i as int));
        self.follow(self.nodes[i].right)
    }

    /// Returns the index of the grandparent of node `i`.
    fn grandparent_of(&self, i: usize) -> (r: Option<usize>)
        requires
            self.wf(),
            self.has(i as int),
        ensures
            r == self.grandparent(i as int),
            self.known(r),
    {
        assert(self.node_ok(i as int));
        match self.nodes[i].parent {
            Some(p) => {
                assert(self.node_ok(p as int));
                self.nodes[p].parent
            },
            None => None,
        }
    }

    /// Returns the index of the sibling of node `i`.
    fn sibling_of(&self, i: usize) -> (r: Option<usize>)
        requires
            self.wf(),
            self.has(i as int),
        ensures
            r == self.sibling(i as int),
            self.known(r),
    {
        assert(self.node_ok(i as int));
        match self.nodes[i].parent {
            Some(p) => {
                assert(self.node_ok(p as int));
                let is_left = match self.nodes[p].left {
                    Some(l) => l == i,
                    None => false,
                };
                if is_left {
                    self.nodes[p].right
                } else {
                    self.nodes[p].left
                }
            },
            None => None,
        }
    }

    /// Returns the index of the uncle of node `i`.
    fn uncle_of(&self, i: usize) -> (r: Option<usize>)
        requires
            self.wf(),
            self.has(i as int),
        ensures
            r == self.uncle(i as int),
            self.known(r),
    {
        assert(self.node_ok(i as int));
        match self.nodes[i].parent {
            Some(p) => self.sibling_of(p),
            None => None,
        }
    }

    /// Returns a reference to the grandparent of node `i`.
    pub fn get_grandparent(&self, i: usize) -> (r: Option<&BinaryTreeNode<T>>)
        requires
            self.wf(),
            self.has(i as int),
        ensures
            self.link(self.grandparent(i as int), r),
    {
        self.follow(self.grandparent_of(i))
    }

    /// Returns a reference to the sibling of node `i`.
    pub fn get_sibling(&self, i: usize) -> (r: Option<&BinaryTreeNode<T>>)
        requires
            self.wf(),
            self.has(i as int),
        ensures
            self.link(self.sibling(i as int), r),
    {
        self.follow(self.sibling_of(i))
    }

    /// Returns a reference to the uncle of node `i`.
    pub fn get_uncle(&self, i: usize) -> (r: Option<&BinaryTreeNode<T>>)
        requires
            self.wf(),
            self.has(i as int),
        ensures
            self.link(self.uncle(i as int), r),
    {
        self.follow(self.uncle_of(i))
    }

    /// Tells whether `after` is the tree `before` in which the node that
    /// `link` names, if it names one, has become `node`.
    pub open spec fn replaced(
        before: &BinaryTree<T>,
        after: &BinaryTree<T>,
        link: Option<usize>,
        node: Option<BinaryTreeNode<T>>,
    ) -> bool {
        &&& after.root == before.root
        &&& after.ranks == before.ranks
        &&& after.bound == before.bound
        &&& match link {
            Some(i) => node matches Some(n) && after.nodes@ == before.nodes@.update(i as int, n),
            None => node.is_none() && after.nodes@ == before.nodes@,
        }
    }

    /// Returns the node that the link `link` names, if it names one, for it
    /// to be changed.
    pub fn follow_mut(&mut self, link: Option<usize>) -> (r: Option<&mut BinaryTreeNode<T>>)
        requires
            old(self).known(link),
        ensures
            old(self).link(
                link,
                match r {
                    Some(n) => Some(&*n),
                    None => None,
                },
            ),
            Self::replaced(
                old(self),
                final(self),
                link,
                match r {
                    Some(n) => Some(*final(n)),
                    None => None,
                },
            ),
    {
        match link {
            Some(i) => Some(&mut self.nodes[i]),
            None => None,
        }
    }

    /// Returns a mutable reference to the root node.
    pub fn get_root_mut(&mut self) -> (r: Option<&mut BinaryTreeNode<T>>)
        requires
            old(self).wf(),
        ensures
            old(self).link(
                old(self).root,
                match r {
                    Some(n) => Some(&*n),
                    None => None,
                },
            ),
            Self::replaced(
                old(self),
                final(self),
                old(self).root,
                match r {
                    Some(n) => Some(*final(n)),
                    None => None,
                },
            ),
    {
        let root = self.root;
        self.follow_mut(root)
    }

    /// Returns a mutable reference to the parent of node `i`.
    pub fn get_parent_mut(&mut self, i: usize) -> (r: Option<&mut BinaryTreeNode<T>>)
        requires
            old(self).wf(),
            old(self).has(i as int),
        ensures
            old(self).link(
                old(self).parent(i as int),
                match r {
                    Some(n) => Some(&*n),
                    None => None,
                },
            ),
            Self::replaced(
                old(self),
                final(self),
                old(self).parent(i as int),
                match r {
                    Some(n) => Some(*final(n)),
                    None => None,
                },
            ),
    {
        assert(self.node_ok(i as int));
        let link = self.nodes[i].parent;
        self.follow_mut(link)
    }

    /// Returns a mutable reference to the left child of node `i`.
    pub fn get_left_mut(&mut self, i: usize) -> (r: Option<&mut BinaryTreeNode<T>>)
        requires
            old(self).wf(),
            old(self).has(i as int),
        ensures
            old(self).link(
                old(self).nodes@[i as int].left,
                match r {
                    Some(n) => Some(&*n),
                    None => None,
                },
            ),
            Self::replaced(
                old(self),
                final(self),
                old(self).nodes@[i as int].left,
                match r {
                    Some(n) => Some(*final(n)),
                    None => None,
                },
            ),
    {
        assert(self.node_ok(i as int));
        let link = self.nodes[i].left;
        self.follow_mut(link)
    }

    /// Returns a mutable reference to the right child of node `i`.
    pub fn get_right_mut(&mut self, i: usize) -> (r: Option<&mut BinaryTreeNode<T>>)
        requires
            old(self).wf(),
            old(self).has(i as int),
        ensures
            old(self).link(
                old(self).nodes@[i as int].right,
                match r {
                    Some(n) => Some(&*n),
                    None => None,
                },
            ),
            Self::replaced(
                old(self),
                final(self),
                old(self).nodes@[i as int].right,
                match r {
                    Some(n) => Some(*final(n)),
                    None => None,
                },
            ),
    {
        assert(self.node_ok(i as int));
        let link = self.nodes[i].right;
        self.follow_mut(link)
    }

    /// Returns a mutable reference to the grandparent of node `i`.
    pub fn get_grandparent_mut(&mut self, i: usize) -> (r: Option<&mut BinaryTreeNode<T>>)
        requires
            old(self).wf(),
            old(self).has(i as int),
        ensures
            old(self).link(
                old(self).grandparent(i as int),
                match r {
                    Some(n) => Some(&*n),
                    None => None,
                },
            ),
            Self::replaced(
                old(self),
                final(self),
                old(self).grandparent(i as int),
                match r {
                    Some(n) => Some(*final(n)),
                    None => None,
                },
            ),
    {
        assert(self.node_ok(i as int));
        let link = self.grandparent_of(i);
        self.follow_mut(link)
    }

    /// Returns a mutable reference to the sibling of node `i`.
    pub fn get_sibling_mut(&mut self, i: usize) -> (r: Option<&mut BinaryTreeNode<T>>)
        requires
            old(self).wf(),
            old(self).has(i as int),
        ensures
            old(self).link(
                old(self).sibling(i as int),
                match r {
                    Some(n) => Some(&*n),
                    None => None,
                },
            ),
            Self::replaced(
                old(self),
                final(self),
                old(self).sibling(i as int),
                match r {
                    Some(n) => Some(*final(n)),
                    None => None,
                },
            ),
    {
        assert(self.node_ok(i as int));
        let link = self.sibling_of(i);
        self.follow_mut(link)
    }

    /// Returns a mutable reference to the uncle of node `i`.
    pub fn get_uncle_mut(&mut self, i: usize) -> (r: Option<&mut BinaryTreeNode<T>>)
        requires
            old(self).wf(),
            old(self).has(i as int),
        ensures
            old(self).link(
                old(self).uncle(i as int),
                match r {
                    Some(n) => Some(&*n),
                    None => None,
                },
            ),
            Self::replaced(
                old(self),
                final(self),
                old(self).uncle(i as int),
                match r {
                    Some(n) => Some(*final(n)),
                    None => None,
                },
            ),
    {
        assert(self.node_ok(i as int));
        let link = self.uncle_of(i);
        self.follow_mut(link)
    }

    /// Tells whether node `j` is in the subtree of node `a`.
    pub fn is_under(&self, j: usize, a: usize) -> (b: bool)
        requires
            self.wf(),
            self.has(j as int),
        ensures
            b == self.under(j as int, a as int),
    {
        let mut cur = j;
        loop
            invariant
                self.wf(),
                self.has(cur as int),
                self.under(j as int, a as int) == self.under(cur as int, a as int),
            decreases self.bound@ - self.ranks@[cur as int],
        {
            assert(self.node_ok(cur as int));
            if cur == a {
                return true;
            }
            match self.nodes[cur].parent {
                Some(p) => {
                    assert(self.node_ok(p as int));
                    cur = p;
                },
                None => {
                    return false;
                },
            }
        }
    }

    /// Returns the number of nodes in the subtree of the node that `link`
    /// names, if it names one.
    pub fn subtree_size(&self, link: Option<usize>) -> (n: usize)
        requires
            self.wf(),
        ensures
            n == self.size(link),
            n <= self.nodes@.len(),
    {
        let a = match link {
            Some(a) => a,
            None => {
                return 0;
            },
        };
        let len = self.nodes.len();
        let mut n: usize = 0;
        let mut j: usize = 0;
        while j < len
            invariant
                self.wf(),
                len == self.nodes@.len(),
                j <= len,
                n == self.count_under(a as int, j as int),
                n <= j,
            decreases len - j,
        {
            if self.is_under(j, a) {
                n = n + 1;
            }
            j = j + 1;
        }
        n
    }

    /// The depth of the subtree of node `i`, as [`Self::get_depth_of`]
    /// counts it: one more than the number of nodes of the larger of the
    /// subtrees of its two children.
    pub open spec fn depth(&self, i: int) -> nat {
        let left = self.size(self.nodes@[i].left);
        let right = self.size(self.nodes@[i].right);
        if left >= right {
            left + 1
        } else {
            right + 1
        }
    }

    /// Returns the number of nodes in the subtree of node `i`.
    pub fn nodes_count_of(&self, i: usize) -> (n: usize)
        requires
            self.wf(),
            self.has(i as int),
        ensures
            n == self.size(Some(i)),
            1 <= n <= self.nodes@.len(),
    {
        let n = self.subtree_size(Some(i));
        proof {
            self.lemma_counted(i as int, self.nodes@.len() as int, i as int);
        }
        n
    }

    /// The first `n` nodes count one node at least in a subtree that one of
    /// them is in.
    pub proof fn lemma_counted(&self, a: int, n: int, j: int)
        requires
            0 <= j < n,
            self.under(j, a),
        ensures
            self.count_under(a, n) >= 1,
        decreases n,
    {
        if j < n - 1 {
            self.lemma_counted(a, n - 1, j);
        }
    }

    /// The subtree of a child of a node has fewer nodes than the tree.
    pub proof fn lemma_child_size(&self, i: int, child: Option<usize>)
        requires
            self.wf(),
            self.has(i),
            child == self.nodes@[i].left || child == self.nodes@[i].right,
        ensures
            self.size(child) < self.nodes@.len(),
    {
        assert(self.node_ok(i));
        match child {
            Some(c) => {
                if self.under(i, c as int) {
                    self.lemma_under_rank(i, c as int);
                }
                self.lemma_count_less(c as int, self.nodes@.len() as int, i);
            },
            None => {},
        }
    }

    /// Returns the depth of the subtree of node `i`.
    pub fn get_depth_of(&self, i: usize) -> (d: usize)
        requires
            self.wf(),
            self.has(i as int),
        ensures
            d == self.depth(i as int),
    {
        assert(self.node_ok(i as int));
        let left = self.nodes[i].left;
        let right = self.nodes[i].right;
        let len = self.nodes.len();
        let left_count = self.subtree_size(left);
        let right_count = self.subtree_size(right);
        proof {
            self.lemma_child_size(i as int, left);
            self.lemma_child_size(i as int, right);
            assert(left_count < len && right_count < len);
        }
        if left_count >= right_count {
            1 + left_count
        } else {
            1 + right_count
        }
    }

    /// Returns the number of nodes in the tree: those of the subtree of its
    /// root.
    pub fn nodes_count(&self) -> (n: usize)
        requires
            self.wf(),
        ensures
            n == self.size(self.root),
    {
        self.subtree_size(self.root)
    }

    /// Returns the depth of the tree: that of the subtree of its root, and
    /// zero if the tree has no root.
    pub fn get_depth(&self) -> (d: usize)
        requires
            self.wf(),
        ensures
            d == match self.root {
                Some(r) => self.depth(r as int),
                None => 0,
            },
    {
        match self.root {
            Some(r) => self.get_depth_of(r),
            None => 0,
        }
    }

    /// Tells whether node `i` can be the pivot of a left rotation: it is the
    /// right child of its parent.
    pub open spec fn turns_left(&self, i: int) -> bool {
        &&& self.has(i)
        &&& self.parent(i) matches Some(r) && self.nodes@[r as int].right == Some(i as usize)
    }

    /// What node `k` becomes in a left rotation with node `i` as pivot:
    /// - the pivot takes the place of its parent, which becomes its left
    ///   child;
    /// - the left child of the pivot becomes the right child of that parent.
    pub open spec fn left_rotated(&self, i: int, k: int) -> BinaryTreeNode<T> {
        let r = self.parent(i)->0;
        let g = self.parent(r as int);
        let b = self.nodes@[i].left;
        let n = self.nodes@[k];
        if k == i {
            BinaryTreeNode { parent: g, left: Some(r), ..n }
        } else if k == r {
            BinaryTreeNode { parent: Some(i as usize), right: b, ..n }
        } else if g == Some(k as usize) {
            if n.left == Some(r) {
                BinaryTreeNode { left: Some(i as usize), ..n }
            } else {
                BinaryTreeNode { right: Some(i as usize), ..n }
            }
        } else if b == Some(k as usize) {
            BinaryTreeNode { parent: Some(r), ..n }
        } else {
            n
        }
    }

    /// The root of the tree once node `i` has taken the place of its parent.
    pub open spec fn root_after(&self, i: int) -> Option<usize> {
        if self.root == self.parent(i) {
            Some(i as usize)
        } else {
            self.root
        }
    }

    /// Numbers for the nodes once node `i` has taken the place of its parent:
    /// the number of each node is above those of its children again.
    pub open spec fn turned_ranks(&self, i: int) -> Seq<nat> {
        let r = self.parent(i)->0 as int;
        Seq::new(
            self.ranks@.len(),
            |k: int|
                if k == i {
                    2 * self.ranks@[r]
                } else if k == r {
                    (2 * self.ranks@[r] - 1) as nat
                } else {
                    2 * self.ranks@[k]
                },
        )
    }

    /// A tree is in order after a left rotation.
    pub proof fn lemma_left_rotated(before: &Self, after: &Self, i: int)
        requires
            before.wf(),
            before.turns_left(i),
            after.nodes@.len() == before.nodes@.len(),
            forall|k: int| before.has(k) ==> #[trigger] after.nodes@[k] == before.left_rotated(i, k),
            after.root == before.root_after(i),
            after.ranks@ == before.turned_ranks(i),
            after.bound@ == 2 * before.bound@,
        ensures
            after.wf(),
    {
        let r = before.parent(i)->0 as int;
        assert(before.node_ok(i));
        assert(before.node_ok(r));
        let g = before.parent(r);
        let b = before.nodes@[i].left;
        if let Some(g) = g {
            assert(before.node_ok(g as int));
        }
        if let Some(b) = b {
            assert(before.node_ok(b as int));
        }
        assert forall|k: int| after.has(k) implies #[trigger] after.node_ok(k) by {
            assert(before.node_ok(k));
            assert(after.nodes@[k] == before.left_rotated(i, k));
            let n = after.nodes@[k];
            if let Some(p) = n.parent {
                assert(before.node_ok(p as int));
                assert(after.nodes@[p as int] == before.left_rotated(i, p as int));
            }
            if let Some(l) = n.left {
                assert(before.node_ok(l as int));
                assert(after.nodes@[l as int] == before.left_rotated(i, l as int));
            }
            if let Some(c) = n.right {
                assert(before.node_ok(c as int));
                assert(after.nodes@[c as int] == before.left_rotated(i, c as int));
            }
        }
        if let Some(root) = after.root {
            assert(after.nodes@[root as int] == before.left_rotated(i, root as int));
        }
    }

    /// Applies a left tree rotation with node `i` as pivot. Each node
    /// becomes what [`Self::left_rotated`] tells; the pivot becomes the root
    /// if its parent was.
    ///
    /// The pivot must be the right child of its parent.
    pub fn left_rotate(&mut self, i: usize)
        requires
            old(self).wf(),
            old(self).turns_left(i as int),
        ensures
            final(self).wf(),
            final(self).nodes@.len() == old(self).nodes@.len(),
            final(self).root == old(self).root_after(i as int),
            forall|k: int|
                old(self).has(k) ==> #[trigger] final(self).nodes@[k] == old(self).left_rotated(
                    i as int,
                    k,
                ),
    {
        assert(self.node_ok(i as int));
        let r = match self.nodes[i].parent {
            Some(r) => r,
            None => {
                return ;
            },
        };
        assert(self.node_ok(r as int));
        let g = self.nodes[r].parent;
        let b = self.nodes[i].left;
        proof {
            if let Some(g) = g {
                assert(self.node_ok(g as int));
            }
            if let Some(b) = b {
                assert(self.node_ok(b as int));
            }
        }
        let len = self.nodes.len();
        let ghost s0 = self.nodes@;
        self.nodes[i].parent = g;
        let ghost s1 = self.nodes@;
        assert(s1 == s0.update(i as int, BinaryTreeNode { parent: g, ..s0[i as int] }));
        match g {
            Some(g) => {
                let is_left = match self.nodes[g].left {
                    Some(l) => l == r,
                    None => false,
                };
                if is_left {
                    self.nodes[g].left = Some(i);
                } else {
                    self.nodes[g].right = Some(i);
                }
            },
            None => {},
        }
        let ghost s2 = self.nodes@;
        assert(match g {
            Some(x) => s2 == s1.update(
                x as int,
                if s1[x as int].left == Some(r) {
                    BinaryTreeNode { left: Some(i), ..s1[x as int] }
                } else {
                    BinaryTreeNode { right: Some(i), ..s1[x as int] }
                },
            ),
            None => s2 == s1,
        });
        let was_root = match self.root {
            Some(root) => root == r,
            None => false,
        };
        if was_root {
            self.root = Some(i);
        }
        self.nodes[i].left = Some(r);
        let ghost s3 = self.nodes@;
        self.nodes[r].parent = Some(i);
        self.nodes[r].right = b;
        let ghost s4 = self.nodes@;
        match b {
            Some(b) => {
                self.nodes[b].parent = Some(r);
            },
            None => {},
        }
        let ghost s5 = self.nodes@;
        assert(match b {
            Some(x) => s5 == s4.update(
                x as int,
                BinaryTreeNode { parent: Some(r), ..s4[x as int] },
            ),
            None => s5 == s4,
        });
        proof {
            self.ranks@ = old(self).turned_ranks(i as int);
            self.bound@ = 2 * old(self).bound@;
            assert(g != Some(i) && g != Some(r) && b != Some(i) && b != Some(r));
            assert(b.is_some() ==> b != g);
            assert forall|k: int| old(self).has(k) implies #[trigger] self.nodes@[k] == old(self).left_rotated(i as int, k) by {
                if k == i {
                    assert(s2[k] == s1[k]);
                    assert(s3[k] == (BinaryTreeNode { left: Some(r), ..s2[k] }));
                    assert(s4[k] == s3[k]);
                    assert(s5[k] == s4[k]);
                } else if k == r {
                    assert(s1[k] == s0[k]);
                    assert(s2[k] == s1[k]);
                    assert(s3[k] == s2[k]);
                    assert(s4[k] == (BinaryTreeNode { parent: Some(i), right: b, ..s3[k] }));
                    assert(s5[k] == s4[k]);
                } else if g == Some(k as usize) {
                    assert(g->0 as int == k);
                    assert(s1[k] == s0[k]);
                    assert(s3[k] == s2[k]);
                    assert(s4[k] == s3[k]);
                    assert(s5[k] == s4[k]);
                } else if b == Some(k as usize) {
                    assert(b->0 as int == k);
                    assert(s1[k] == s0[k]);
                    assert(s2[k] == s1[k]);
                    assert(s3[k] == s2[k]);
                    assert(s4[k] == s3[k]);
                    assert(s5[k] == (BinaryTreeNode { parent: Some(r), ..s4[k] }));
                } else {
                    assert(s1[k] == s0[k]);
                    assert(s2[k] == s1[k]);
                    assert(s3[k] == s2[k]);
                    assert(s4[k] == s3[k]);
                    assert(s5[k] == s4[k]);
                }
            }
            Self::lemma_left_rotated(old(self), self, i as int);
        }
    }

    /// Tells whether node `i` can be the pivot of a right rotation: it is the
    /// left child of its parent.
    pub open spec fn turns_right(&self, i: int) -> bool {
        &&& self.has(i)
        &&& self.parent(i) matches Some(r) && self.nodes@[r as int].left == Some(i as usize)
    }

    /// What node `k` becomes in a right rotation with node `i` as pivot:
    /// - the pivot takes the place of its parent, which becomes its right
    ///   child;
    /// - the right child of the pivot becomes the left child of that parent.
    pub open spec fn right_rotated(&self, i: int, k: int) -> BinaryTreeNode<T> {
        let r = self.parent(i)->0;
        let g = self.parent(r as int);
        let b = self.nodes@[i].right;
        let n = self.nodes@[k];
        if k == i {
            BinaryTreeNode { parent: g, right: Some(r), ..n }
        } else if k == r {
            BinaryTreeNode { parent: Some(i as usize), left: b, ..n }
        } else if g == Some(k as usize) {
            if n.left == Some(r) {
                BinaryTreeNode { left: Some(i as usize), ..n }
            } else {
                BinaryTreeNode { right: Some(i as usize), ..n }
            }
        } else if b == Some(k as usize) {
            BinaryTreeNode { parent: Some(r), ..n }
        } else {
            n
        }
    }

    /// A tree is in order after a right rotation.
    pub proof fn lemma_right_rotated(before: &Self, after: &Self, i: int)
        requires
            before.wf(),
            before.turns_right(i),
            after.nodes@.len() == before.nodes@.len(),
            forall|k: int| before.has(k) ==> #[trigger] after.nodes@[k] == before.right_rotated(i, k),
            after.root == before.root_after(i),
            after.ranks@ == before.turned_ranks(i),
            after.bound@ == 2 * before.bound@,
        ensures
            after.wf(),
    {
        let r = before.parent(i)->0 as int;
        assert(before.node_ok(i));
        assert(before.node_ok(r));
        let g = before.parent(r);
        let b = before.nodes@[i].right;
        if let Some(g) = g {
            assert(before.node_ok(g as int));
        }
        if let Some(b) = b {
            assert(before.node_ok(b as int));
        }
        assert forall|k: int| after.has(k) implies #[trigger] after.node_ok(k) by {
            assert(before.node_ok(k));
            assert(after.nodes@[k] == before.right_rotated(i, k));
            let n = after.nodes@[k];
            if let Some(p) = n.parent {
                assert(before.node_ok(p as int));
                assert(after.nodes@[p as int] == before.right_rotated(i, p as int));
            }
            if let Some(l) = n.left {
                assert(before.node_ok(l as int));
                assert(after.nodes@[l as int] == before.right_rotated(i, l as int));
            }
            if let Some(c) = n.right {
                assert(before.node_ok(c as int));
                assert(after.nodes@[c as int] == before.right_rotated(i, c as int));
            }
        }
        if let Some(root) = after.root {
            assert(after.nodes@[root as int] == before.right_rotated(i, root as int));
        }
    }

    /// Applies a right tree rotation with node `i` as pivot. Each node
    /// becomes what [`Self::right_rotated`] tells; the pivot becomes the root
    /// if its parent was.
    ///
    /// The pivot must be the left child of its parent.
    pub fn right_rotate(&mut self, i: usize)
        requires
            old(self).wf(),
            old(self).turns_right(i as int),
        ensures
            final(self).wf(),
            final(self).nodes@.len() == old(self).nodes@.len(),
            final(self).root == old(self).root_after(i as int),
            forall|k: int|
                old(self).has(k) ==> #[trigger] final(self).nodes@[k] == old(self).right_rotated(
                    i as int,
                    k,
                ),
    {
        assert(self.node_ok(i as int));
        let r = match self.nodes[i].parent {
            Some(r) => r,
            None => {
                return ;
            },
        };
        assert(self.node_ok(r as int));
        let g = self.nodes[r].parent;
        let b = self.nodes[i].right;
        proof {
            if let Some(g) = g {
                assert(self.node_ok(g as int));
            }
            if let Some(b) = b {
                assert(self.node_ok(b as int));
            }
        }
        let len = self.nodes.len();
        let ghost s0 = self.nodes@;
        self.nodes[i].parent = g;
        let ghost s1 = self.nodes@;
        assert(s1 == s0.update(i as int, BinaryTreeNode { parent: g, ..s0[i as int] }));
        match g {
            Some(g) => {
                let is_left = match self.nodes[g].left {
                    Some(l) => l == r,
                    None => false,
                };
                if is_left {
                    self.nodes[g].left = Some(i);
                } else {
                    self.nodes[g].right = Some(i);
                }
            },
            None => {},
        }
        let ghost s2 = self.nodes@;
        assert(match g {
            Some(x) => s2 == s1.update(
                x as int,
                if s1[x as int].left == Some(r) {
                    BinaryTreeNode { left: Some(i), ..s1[x as int] }
                } else {
                    BinaryTreeNode { right: Some(i), ..s1[x as int] }
                },
            ),
            None => s2 == s1,
        });
        let was_root = match self.root {
            Some(root) => root == r,
            None => false,
        };
        if was_root {
            self.root = Some(i);
        }
        self.nodes[i].right = Some(r);
        let ghost s3 = self.nodes@;
        self.nodes[r].parent = Some(i);
        self.nodes[r].left = b;
        let ghost s4 = self.nodes@;
        match b {
            Some(b) => {
                self.nodes[b].parent = Some(r);
            },
            None => {},
        }
        let ghost s5 = self.nodes@;
        assert(match b {
            Some(x) => s5 == s4.update(
                x as int,
                BinaryTreeNode { parent: Some(r), ..s4[x as int] },
            ),
            None => s5 == s4,
        });
        proof {
            self.ranks@ = old(self).turned_ranks(i as int);
            self.bound@ = 2 * old(self).bound@;
            assert(g != Some(i) && g != Some(r) && b != Some(i) && b != Some(r));
            assert(b.is_some() ==> b != g);
            assert forall|k: int| old(self).has(k) implies #[trigger] self.nodes@[k] == old(self).right_rotated(i as int, k) by {
                if k == i {
                    assert(s2[k] == s1[k]);
                    assert(s3[k] == (BinaryTreeNode { right: Some(r), ..s2[k] }));
                    assert(s4[k] == s3[k]);
                    assert(s5[k] == s4[k]);
                } else if k == r {
                    assert(s1[k] == s0[k]);
                    assert(s2[k] == s1[k]);
                    assert(s3[k] == s2[k]);
                    assert(s4[k] == (BinaryTreeNode { parent: Some(i), left: b, ..s3[k] }));
                    assert(s5[k] == s4[k]);
                } else if g == Some(k as usize) {
                    assert(g->0 as int == k);
                    assert(s1[k] == s0[k]);
                    assert(s3[k] == s2[k]);
                    assert(s4[k] == s3[k]);
                    assert(s5[k] == s4[k]);
                } else if b == Some(k as usize) {
                    assert(b->0 as int == k);
                    assert(s1[k] == s0[k]);
                    assert(s2[k] == s1[k]);
                    assert(s3[k] == s2[k]);
                    assert(s4[k] == s3[k]);
                    assert(s5[k] == (BinaryTreeNode { parent: Some(r), ..s4[k] }));
                } else {
                    assert(s1[k] == s0[k]);
                    assert(s2[k] == s1[k]);
                    assert(s3[k] == s2[k]);
                    assert(s4[k] == s3[k]);
                    assert(s5[k] == s4[k]);
                }
            }
            Self::lemma_right_rotated(old(self), self, i as int);
        }
    }

    /// The node of index `i`.
    pub open spec fn node(&self, i: usize) -> BinaryTreeNode<T> {
        self.nodes@[i as int]
    }

    /// Tells whether `i` is the index of a node that is in order.
    pub open spec fn is_node(&self, i: usize) -> bool {
        self.has(i as int) && self.node_ok(i as int)
    }

    /// A number that is above that of the node that `link` names, and zero
    /// if it names none.
    pub open spec fn height(&self, link: Option<usize>) -> nat {
        match link {
            Some(i) => self.ranks@[i as int] + 1,
            None => 0,
        }
    }

    /// Tells whether a search that has come to the link `link` may end with
    /// `r`: it ends with none where the link names no node, and with a node
    /// for which `order` answers that it is the one; it goes on to the left
    /// of a node for which `order` answers that the one that is looked for is
    /// less, and to its right where it answers that it is greater.
    pub open spec fn selected<F: Fn(&BinaryTreeNode<T>) -> Ordering>(
        &self,
        order: F,
        link: Option<usize>,
        r: Option<usize>,
    ) -> bool
        decreases self.height(link),
    {
        match link {
            None => r.is_none(),
            Some(i) => self.is_node(i) && ((order.ensures((&self.node(i),), Ordering::Equal) && r
                == Some(i)) || (order.ensures((&self.node(i),), Ordering::Less) && self.selected(
                order,
                self.node(i).left,
                r,
            )) || (order.ensures((&self.node(i),), Ordering::Greater) && self.selected(
                order,
                self.node(i).right,
                r,
            ))),
        }
    }

    /// Searches for a node with the given closure for comparison, from the
    /// root on, as [`Self::selected`] tells.
    ///
    /// `order` is the comparison function: it tells whether the node that is
    /// looked for is less than the node that it is given, is that node, or is
    /// greater.
    pub fn select<F: Fn(&BinaryTreeNode<T>) -> Ordering>(&self, order: F) -> (r: Option<&BinaryTreeNode<T>>)
        requires
            self.wf(),
            forall|i: usize| self.is_node(i) ==> #[trigger] order.requires((&self.node(i),)),
        ensures
            match r {
                Some(n) => self.is_node(n.index) && *n == self.node(n.index) && self.selected(
                    order,
                    self.root,
                    Some(n.index),
                ),
                None => self.selected(order, self.root, None),
            },
    {
        let mut link = self.root;
        loop
            invariant
                self.wf(),
                self.known(link),
                forall|i: usize| self.is_node(i) ==> #[trigger] order.requires((&self.node(i),)),
                forall|r: Option<usize>|
                    #[trigger] self.selected(order, link, r) ==> self.selected(order, self.root, r),
            decreases self.height(link),
        {
            let i = match link {
                Some(i) => i,
                None => {
                    assert(self.selected(order, link, None));
                    return None;
                },
            };
            assert(self.is_node(i));
            let n = &self.nodes[i];
            assert(*n == self.node(i));
            let ghost here = link;
            match order(n) {
                Ordering::Less => {
                    link = n.left;
                    assert forall|r: Option<usize>| #[trigger]
                        self.selected(order, link, r) implies self.selected(order, here, r) by {}
                },
                Ordering::Greater => {
                    link = n.right;
                    assert forall|r: Option<usize>| #[trigger]
                        self.selected(order, link, r) implies self.selected(order, here, r) by {}
                },
                Ordering::Equal => {
                    assert(self.selected(order, here, Some(i)));
                    return Some(n);
                },
            }
        }
    }

    /// The child of node `i` on side `side`.
    pub open spec fn child(&self, i: usize, side: Side) -> Option<usize> {
        match side {
            Side::Left => self.nodes@[i as int].left,
            Side::Right => self.nodes@[i as int].right,
        }
    }

    /// Tells whether a leaf can be attached at `place`: on a side of a node
    /// that has no child there, or, if no place is given, as the root of a
    /// tree that has none.
    pub open spec fn free_at(&self, place: Option<(usize, Side)>) -> bool {
        match place {
            Some((p, side)) => self.has(p as int) && self.child(p, side).is_none(),
            None => self.root.is_none(),
        }
    }

    /// The leaf with index `index` that holds `value` under the node that
    /// `place` names.
    pub open spec fn leaf(index: usize, place: Option<(usize, Side)>, value: T) -> BinaryTreeNode<T> {
        BinaryTreeNode {
            index,
            parent: match place {
                Some((p, _)) => Some(p),
                None => None,
            },
            left: None,
            right: None,
            color: NodeColor::Red,
            value,
        }
    }

    /// Tells whether `after` is the tree `before` with one more node, a leaf
    /// that holds `value`, at `place`: the leaf is the last node, the node
    /// that it is attached to has it for a child, and it is the root if it is
    /// attached to no node.
    pub open spec fn grown(
        before: &BinaryTree<T>,
        after: &BinaryTree<T>,
        place: Option<(usize, Side)>,
        value: T,
    ) -> bool {
        let n = before.nodes@.len();
        &&& after.nodes@.len() == n + 1
        &&& after.nodes@[n as int] == Self::leaf(n as usize, place, value)
        &&& forall|k: int|
            0 <= k < n ==> #[trigger] after.nodes@[k] == match place {
                Some((p, Side::Left)) if p == k => BinaryTreeNode {
                    left: Some(n as usize),
                    ..before.nodes@[k]
                },
                Some((p, Side::Right)) if p == k => BinaryTreeNode {
                    right: Some(n as usize),
                    ..before.nodes@[k]
                },
                _ => before.nodes@[k],
            }
        &&& after.root == match place {
            Some(_) => before.root,
            None => Some(n as usize),
        }
    }

    /// Numbers for the nodes of the tree with one more node, a leaf.
    pub open spec fn grown_ranks(&self) -> Seq<nat> {
        Seq::new(
            self.ranks@.len() + 1,
            |k: int|
                if k < self.ranks@.len() {
                    self.ranks@[k] + 1
                } else {
                    0nat
                },
        )
    }

    /// A tree is in order with one more leaf.
    pub proof fn lemma_grown(before: &Self, after: &Self, place: Option<(usize, Side)>, value: T)
        requires
            before.wf(),
            before.free_at(place),
            before.nodes@.len() < usize::MAX,
            Self::grown(before, after, place, value),
            after.ranks@ == before.grown_ranks(),
            after.bound@ == before.bound@ + 1,
        ensures
            after.wf(),
    {
        let n = before.nodes@.len() as int;
        assert forall|k: int| after.has(k) implies #[trigger] after.node_ok(k) by {
            if k < n {
                assert(before.node_ok(k));
                let m = before.nodes@[k];
                if let Some(p) = m.parent {
                    assert(before.node_ok(p as int));
                }
                if let Some(l) = m.left {
                    assert(before.node_ok(l as int));
                }
                if let Some(c) = m.right {
                    assert(before.node_ok(c as int));
                }
            } else {
                if let Some((p, _)) = place {
                    assert(before.node_ok(p as int));
                }
            }
        }
        if let Some(r) = after.root {
            if place.is_some() {
                assert(before.node_ok(r as int));
            }
        }
    }

    /// Attaches a leaf that holds `value` at `place`, and returns its index.
    ///
    /// The place must be free.
    pub fn attach(&mut self, place: Option<(usize, Side)>, value: T) -> (index: usize)
        requires
            old(self).wf(),
            old(self).free_at(place),
            old(self).nodes@.len() < usize::MAX,
        ensures
            final(self).wf(),
            index == old(self).nodes@.len(),
            Self::grown(old(self), final(self), place, value),
    {
        let index = self.nodes.len();
        let parent = match place {
            Some((p, _)) => Some(p),
            None => None,
        };
        let ghost added = Self::leaf(index, place, value);
        self.nodes.push(
            BinaryTreeNode { index, parent, left: None, right: None, color: NodeColor::Red, value },
        );
        let ghost s1 = self.nodes@;
        assert(s1 == old(self).nodes@.push(added));
        match place {
            Some((p, Side::Left)) => {
                self.nodes[p].left = Some(index);
            },
            Some((p, Side::Right)) => {
                self.nodes[p].right = Some(index);
            },
            None => {
                self.root = Some(index);
            },
        }
        proof {
            self.ranks@ = old(self).grown_ranks();
            self.bound@ = old(self).bound@ + 1;
            assert forall|k: int| 0 <= k < index implies #[trigger] self.nodes@[k] == match place {
                Some((p, Side::Left)) if p == k => BinaryTreeNode {
                    left: Some(index),
                    ..old(self).nodes@[k]
                },
                Some((p, Side::Right)) if p == k => BinaryTreeNode {
                    right: Some(index),
                    ..old(self).nodes@[k]
                },
                _ => old(self).nodes@[k],
            } by {
                assert(s1[k] == old(self).nodes@[k]);
            }
            Self::lemma_grown(old(self), self, place, value);
        }
        index
    }

    /// Tells whether a leaf that goes down the tree from the link `link` may
    /// end on side `side` of node `parent`: at each node it goes to the left
    /// where `order` answers that it is less than the value of the node, and
    /// to the right otherwise, and it ends where the node has no child on
    /// that side.
    pub open spec fn leaf_place<F: Fn(&T) -> Ordering>(
        &self,
        order: F,
        link: Option<usize>,
        parent: usize,
        side: Side,
    ) -> bool
        decreases self.height(link),
    {
        match link {
            None => false,
            Some(i) => self.is_node(i) && ((order.ensures((&self.node(i).value,), Ordering::Less)
                && self.leaf_goes(order, i, Side::Left, parent, side)) || (order.ensures(
                (&self.node(i).value,),
                Ordering::Equal,
            ) && self.leaf_goes(order, i, Side::Right, parent, side)) || (order.ensures(
                (&self.node(i).value,),
                Ordering::Greater,
            ) && self.leaf_goes(order, i, Side::Right, parent, side))),
        }
    }

    /// Tells whether a leaf that goes to side `to` of node `i` may end on
    /// side `side` of node `parent`.
    pub open spec fn leaf_goes<F: Fn(&T) -> Ordering>(
        &self,
        order: F,
        i: usize,
        to: Side,
        parent: usize,
        side: Side,
    ) -> bool
        decreases self.height(Some(i)), 0nat,
    {
        self.is_node(i) && match self.child(i, to) {
            None => parent == i && side == to,
            Some(c) => self.leaf_place(order, Some(c), parent, side),
        }
    }

    /// Inserts a value in the tree, in a new leaf, and returns the index of
    /// the leaf. The leaf goes down from the root as [`Self::leaf_place`]
    /// tells, and is the root if the tree has none.
    ///
    /// `order` is the comparison function: it tells whether the value is
    /// less than the value that it is given, is equal to it, or is greater.
    pub fn insert_with<F: Fn(&T) -> Ordering>(&mut self, value: T, order: F) -> (index: usize)
        requires
            old(self).wf(),
            old(self).nodes@.len() < usize::MAX,
            forall|i: usize| old(self).is_node(i) ==> #[trigger] order.requires((&old(self).node(i).value,)),
        ensures
            final(self).wf(),
            index == old(self).nodes@.len(),
            match old(self).root {
                None => Self::grown(old(self), final(self), None, value),
                Some(_) => exists|parent: usize, side: Side| #[trigger]
                    old(self).leaf_place(order, old(self).root, parent, side) && Self::grown(
                        old(self),
                        final(self),
                        Some((parent, side)),
                        value,
                    ),
            },
    {
        let mut place: Option<(usize, Side)> = None;
        let mut link = self.root;
        while link.is_some()
            invariant
                *self == *old(self),
                self.wf(),
                self.known(link),
                forall|i: usize| self.is_node(i) ==> #[trigger] order.requires((&self.node(i).value,)),
                forall|p: usize, s: Side| #[trigger]
                    self.leaf_place(order, link, p, s) ==> self.leaf_place(order, self.root, p, s),
                match place {
                    Some((p, s)) => link.is_none() && self.is_node(p) && self.child(p, s).is_none()
                        && self.leaf_place(order, self.root, p, s),
                    None => link.is_none() ==> self.root.is_none(),
                },
            decreases self.height(link),
        {
            let i = match link {
                Some(i) => i,
                None => 0,
            };
            assert(self.is_node(i));
            let ghost here = link;
            let n = &self.nodes[i];
            assert(*n == self.node(i));
            let (next, side) = match order(&n.value) {
                Ordering::Less => (n.left, Side::Left),
                Ordering::Equal => (n.right, Side::Right),
                Ordering::Greater => (n.right, Side::Right),
            };
            assert(next == self.child(i, side));
            proof {
                assert forall|p: usize, s: Side| #[trigger]
                    self.leaf_place(order, next, p, s) implies self.leaf_place(order, here, p, s) by {
                    assert(self.leaf_goes(order, i, side, p, s));
                }
                if next.is_none() {
                    assert(self.leaf_goes(order, i, side, i, side));
                    assert(self.leaf_place(order, here, i, side));
                }
            }
            if next.is_none() {
                place = Some((i, side));
            }
            link = next;
        }
        let index = self.attach(place, value);
        proof {
            if let Some((p, s)) = place {
                assert(old(self).leaf_place(order, old(self).root, p, s) && Self::grown(
                    old(self),
                    self,
                    Some((p, s)),
                    value,
                ));
            }
        }
        index
    }
}

} // verus!
