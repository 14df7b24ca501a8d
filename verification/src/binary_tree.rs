//! A binary tree ordered by a total order, holding duplicates.
//!
//! The model of a tree is the multiset of its values.  Insertion keeps the
//! search invariant the original grew with: values not below a node go into
//! its left subtree, values strictly below it into its right subtree, so a
//! lookup walks one path.  The first value ever added stays at the root.

use crate::traits::Duplicable;
use crate::traits::TotalOrd;
use vstd::multiset::Multiset;
use vstd::prelude::*;

verus! {

broadcast use vstd::multiset::group_multiset_axioms;

/// One node of the tree: a value and its two subtrees.
struct Node<T> {
    value: T,
    left: Option<Box<Node<T>>>,
    right: Option<Box<Node<T>>>,
}

/// The multiset of values held by an optional subtree.
spec fn subtree_ms<T>(n: Option<Box<Node<T>>>) -> Multiset<T>
    decreases n,
{
    match n {
        None => Multiset::empty(),
        Some(b) => Multiset::singleton(b.value).add(subtree_ms(b.left)).add(subtree_ms(b.right)),
    }
}

/// The search invariant: at every node, the left subtree holds only values
/// not below the node's value, the right subtree only values strictly
/// below it.
spec fn subtree_sorted<T: TotalOrd>(n: Option<Box<Node<T>>>) -> bool
    decreases n,
{
    match n {
        None => true,
        Some(b) => {
            &&& (forall|x: T| #[trigger] subtree_ms(b.left).contains(x) ==> b.value.le_spec(x))
            &&& (forall|x: T| #[trigger] subtree_ms(b.right).contains(x) ==> !b.value.le_spec(x))
            &&& subtree_sorted(b.left)
            &&& subtree_sorted(b.right)
        },
    }
}

/// A value is in a subtree exactly when it is at its root node or in one
/// of the two child subtrees.
proof fn lemma_subtree_contains<T>(b: Box<Node<T>>, x: T)
    ensures
        subtree_ms(Some(b)).contains(x) <==> (b.value == x || subtree_ms(b.left).contains(x)
            || subtree_ms(b.right).contains(x)),
{
    if b.value == x {
        assert(Multiset::singleton(b.value).count(x) == 1);
    } else {
        assert(Multiset::singleton(b.value).count(x) == 0);
    }
}

/// The value at the root of an optional subtree.
spec fn subtree_root<T>(n: Option<Box<Node<T>>>) -> Option<T> {
    match n {
        None => None,
        Some(b) => Some(b.value),
    }
}

/// A binary tree holding values of a totally ordered type.
pub struct BinaryTree<T> {
    root: Option<Box<Node<T>>>,
}

impl<T> View for BinaryTree<T> {
    type V = Multiset<T>;

    closed spec fn view(&self) -> Multiset<T> {
        subtree_ms(self.root)
    }
}

impl<T: TotalOrd> BinaryTree<T> {
    /// The structural invariant: the search order holds everywhere.
    pub closed spec fn wf(&self) -> bool {
        subtree_sorted(self.root)
    }

    /// The value at the root, in specification terms.
    pub closed spec fn root_spec(&self) -> Option<T> {
        subtree_root(self.root)
    }
}

impl<T: TotalOrd> Default for BinaryTree<T> {
    /// The empty tree.
    fn default() -> (r: Self)
        ensures
            r@ == Multiset::<T>::empty(),
            r.root_spec() is None,
            r.wf(),
    {
        BinaryTree { root: None }
    }
}

impl<T: TotalOrd + Duplicable> BinaryTree<T> {
    /// Adds `value` to the tree.  The root value never changes once the
    /// tree is non-empty.
    pub fn add(&mut self, value: T)
        requires
            old(self).wf(),
        ensures
            final(self).wf(),
            final(self)@ == old(self)@.insert(value),
            final(self).root_spec() == if old(self).root_spec() is None {
                Some(value)
            } else {
                old(self).root_spec()
            },
    {
        let root = self.root.take();
        self.root = self.add_recursive(root, value);
    }

    /// Rebuilds `node` with `target` added, keeping the search invariant.
    fn add_recursive(&mut self, node: Option<Box<Node<T>>>, target: T) -> (r: Option<Box<Node<T>>>)
        requires
            subtree_sorted(node),
        ensures
            subtree_sorted(r),
            subtree_ms(r) == subtree_ms(node).insert(target),
            subtree_root(r) == if node is None {
                Some(target)
            } else {
                subtree_root(node)
            },
        decreases node,
    {
        match node {
            Some(n) => {
                let ghost orig = *n;
                let mut inner = *n;
                if inner.value.le(&target) {
                    let old_left = inner.left;
                    inner.left = self.add_recursive(old_left, target);
                    proof {
                        assert forall|x: T| #[trigger] subtree_ms(inner.left).contains(x) implies
                            inner.value.le_spec(x) by {
                            if !subtree_ms(orig.left).contains(x) {
                                assert(subtree_ms(orig.left).insert(target).count(x) > 0);
                                assert(x == target);
                            }
                        }
                        assert(subtree_ms(Some(Box::new(inner))) =~= subtree_ms(node).insert(
                            target,
                        ));
                    }
                    Some(Box::new(inner))
                } else {
                    let old_right = inner.right;
                    inner.right = self.add_recursive(old_right, target);
                    proof {
                        assert forall|x: T| #[trigger] subtree_ms(inner.right).contains(x) implies
                            !inner.value.le_spec(x) by {
                            if !subtree_ms(orig.right).contains(x) {
                                assert(subtree_ms(orig.right).insert(target).count(x) > 0);
                                assert(x == target);
                            }
                        }
                        assert(subtree_ms(Some(Box::new(inner))) =~= subtree_ms(node).insert(
                            target,
                        ));
                    }
                    Some(Box::new(inner))
                }
            },
            _ => {
                let r = Some(Box::new(Node { value: target, left: None, right: None }));
                proof {
                    assert(subtree_ms(r) =~= subtree_ms(node).insert(target));
                }
                r
            },
        }
    }

    /// Looks `target` up: `Some(target)` when the tree holds it, `None`
    /// otherwise.
    pub fn get(&self, target: T) -> (r: Option<T>)
        requires
            self.wf(),
        ensures
            r == if self@.contains(target) {
                Some(target)
            } else {
                None::<T>
            },
    {
        self.get_recursive(&self.root, target)
    }

    /// Walks the one path the search invariant allows `target` to be on.
    fn get_recursive(&self, node: &Option<Box<Node<T>>>, target: T) -> (r: Option<T>)
        requires
            subtree_sorted(*node),
        ensures
            r == if subtree_ms(*node).contains(target) {
                Some(target)
            } else {
                None::<T>
            },
        decreases *node,
    {
        match node {
            Some(n) => {
                proof {
                    lemma_subtree_contains(*n, target);
                }
                if !target.le(&n.value) {
                    // The node's value lies strictly below the target, so
                    // only the left subtree can hold it.
                    proof {
                        T::le_total(target, n.value);
                        assert(n.value.le_spec(target));
                        assert(n.value != target);
                        assert(!subtree_ms(n.right).contains(target));
                    }
                    self.get_recursive(&n.left, target)
                } else if !n.value.le(&target) {
                    // The target lies strictly below the node's value, so
                    // only the right subtree can hold it.
                    proof {
                        if n.value == target {
                            T::le_total(n.value, target);
                            assert(false);
                        }
                        assert(!subtree_ms(n.left).contains(target));
                    }
                    self.get_recursive(&n.right, target)
                } else {
                    proof {
                        T::le_antisymmetric(n.value, target);
                        assert(Multiset::singleton(n.value).count(target) == 1);
                    }
                    Some(n.value.duplicate())
                }
            },
            _ => None,
        }
    }

    /// The root node, if the tree is non-empty.
    fn get_root_node(&self) -> (r: Option<&Node<T>>)
        ensures
            match r {
                Some(n) => self.root_spec() == Some(n.value),
                None => self.root_spec() is None,
            },
    {
        match &self.root {
            Some(node) => Some(node),
            None => None,
        }
    }

    /// The value at the root: the first value ever added, or `None` on an
    /// empty tree.
    pub fn get_root(&self) -> (r: Option<T>)
        ensures
            r == self.root_spec(),
    {
        if let Some(root) = self.get_root_node() {
            return Some(root.value.duplicate());
        }
        None
    }
}

} // verus!
