//! The executable tree.
//!
//! Contracts are stated over the tree's view, a [`Shape`]. Two facts about
//! the element type appear in them as premises:
//!
//! * `T::obeys_cmp_spec()`: the executable `cmp` returns what `cmp_spec`
//!   says. It is all that is needed to say where an insertion puts its value.
//! * `obeys_cmp::<T>()`: moreover, `cmp_spec` is a lawful total order.
//!   Queries rely on it to conclude from one comparison what holds of a whole
//!   subtree.
//!
//! Both hold of the integer types, and of tuples, options and references
//! built from types of which they hold.

use crate::order::{at_most, lemma_cmp_is_specified};
use crate::shape::{
    lemma_contains_narrows, lemma_empty_contains_nothing, lemma_insert_ordered,
    lemma_insert_values, lemma_leftmost_least, lemma_leftmost_member, lemma_pruned_ordered,
    lemma_rightmost_greatest, lemma_rightmost_member, Shape,
};
use std::cmp::Ordering;
use std::fmt::Debug;
use vstd::laws_cmp::obeys_cmp;
use vstd::prelude::*;
use vstd::std_specs::cmp::OrdSpec;

verus! {

/// An unbalanced binary search tree that keeps duplicates.
///
/// A node owns its two optional children. The tree handle is itself a node;
/// an empty tree is a node without a value and without children.
#[derive(Debug)]
pub struct BST<T>
where
    T: Ord + Debug + Copy,
{
    value: Option<T>,
    left: Option<Box<BST<T>>>,
    right: Option<Box<BST<T>>>,
}

impl<T> View for BST<T>
where
    T: Ord + Debug + Copy,
{
    type V = Shape<T>;

    closed spec fn view(&self) -> Shape<T> {
        self.shape()
    }
}

impl<T> BST<T>
where
    T: Ord + Debug + Copy,
{
    spec fn shape(self) -> Shape<T>
        decreases self,
    {
        match self.value {
            None => Shape::Empty,
            Some(value) => Shape::Node {
                left: Box::new(Self::slot(self.left)),
                value,
                right: Box::new(Self::slot(self.right)),
            },
        }
    }

    spec fn slot(child: Option<Box<BST<T>>>) -> Shape<T>
        decreases child,
    {
        match child {
            None => Shape::Empty,
            Some(node) => node.shape(),
        }
    }

    /// What holds of every tree: a node without a value has no children, a
    /// child always holds a value, and, where the element type's `cmp`
    /// agrees with its `cmp_spec`, the values are in search-tree order.
    #[verifier::type_invariant]
    spec fn inv(self) -> bool {
        &&& self.value is None ==> self.left is None && self.right is None
        &&& self.left matches Some(node) ==> node.value is Some
        &&& self.right matches Some(node) ==> node.value is Some
        &&& T::obeys_cmp_spec() ==> self.shape().ordered()
    }

    /// An empty tree.
    pub fn new() -> (tree: BST<T>)
        ensures
            tree@ is Empty,
    {
        BST { value: None, left: None, right: None }
    }

    /// A tree of one node holding `value`.
    pub fn from(value: T) -> (tree: BST<T>)
        ensures
            tree@ == Shape::leaf(value),
    {
        proof {
            lemma_insert_ordered(Shape::Empty, value);
        }
        BST { value: Some(value), left: None, right: None }
    }

    /// Adds `value` to the tree. A value that does not sort after a node's
    /// value goes to that node's left, ties included; otherwise it goes right.
    pub fn insert(&mut self, value: T)
        ensures
            final(self)@.values() == old(self)@.values().insert(value),
            T::obeys_cmp_spec() ==> final(self)@ == old(self)@.insert(value),
            T::obeys_cmp_spec() ==> final(self)@.ordered(),
        decreases *old(self),
    {
        proof {
            use_type_invariant(&*self);
        }
        match self.value {
            None => {
                proof {
                    lemma_insert_values(self@, value);
                    lemma_insert_ordered(self@, value);
                }
                self.value = Some(value);
            },
            Some(key) => {
                let ghost before = self@;
                let goes_right = match value.cmp(&key) {
                    Ordering::Greater => true,
                    _ => false,
                };
                proof {
                    lemma_insert_values(before, value);
                    if T::obeys_cmp_spec() {
                        lemma_pruned_ordered(before);
                        lemma_insert_ordered(before, value);
                    }
                }
                let mut child: Option<Box<BST<T>>> = None;
                if goes_right {
                    std::mem::swap(&mut child, &mut self.right);
                } else {
                    std::mem::swap(&mut child, &mut self.left);
                }
                let ghost below = Self::slot(child);
                let grown = match child {
                    Some(mut node) => {
                        node.insert(value);
                        node
                    },
                    None => Box::new(BST::from(value)),
                };
                proof {
                    lemma_insert_values(below, value);
                    assert(grown@.values().contains(value));
                }
                if goes_right {
                    self.right = Some(grown);
                } else {
                    self.left = Some(grown);
                }
                assert(self@.values() =~= before.values().insert(value));
            },
        }
    }

    /// The smallest value in the tree, or `None` if the tree is empty.
    pub fn minimum(&self) -> (least: Option<&T>)
        ensures
            least is None <==> self@ is Empty,
            least matches Some(m) ==> self@.leftmost() == Some(*m) && self@.values().contains(*m),
            obeys_cmp::<T>() ==> (least matches Some(m) ==> forall|v: T| #[trigger]
                self@.values().contains(v) ==> at_most(*m, v)),
        decreases self,
    {
        proof {
            use_type_invariant(self);
            lemma_leftmost_member(self@);
            if obeys_cmp::<T>() {
                lemma_cmp_is_specified::<T>();
                lemma_leftmost_least(self@);
            }
        }
        match &self.left {
            Some(node) => node.minimum(),
            None => match &self.value {
                Some(value) => Some(value),
                None => None,
            },
        }
    }

    /// The largest value in the tree, or `None` if the tree is empty.
    pub fn maximum(&self) -> (greatest: Option<&T>)
        ensures
            greatest is None <==> self@ is Empty,
            greatest matches Some(m) ==> self@.rightmost() == Some(*m) && self@.values().contains(
                *m,
            ),
            obeys_cmp::<T>() ==> (greatest matches Some(m) ==> forall|v: T| #[trigger]
                self@.values().contains(v) ==> at_most(v, *m)),
        decreases self,
    {
        proof {
            use_type_invariant(self);
            lemma_rightmost_member(self@);
            if obeys_cmp::<T>() {
                lemma_cmp_is_specified::<T>();
                lemma_rightmost_greatest(self@);
            }
        }
        match &self.right {
            Some(node) => node.maximum(),
            None => match &self.value {
                Some(value) => Some(value),
                None => None,
            },
        }
    }

    /// Whether some value in the tree compares as equal to `target`.
    pub fn search(&self, target: &T) -> (found: bool)
        ensures
            self@ is Empty ==> !found,
            obeys_cmp::<T>() ==> found == self@.contains(*target),
        decreases self,
    {
        proof {
            use_type_invariant(self);
            lemma_empty_contains_nothing(*target);
            if obeys_cmp::<T>() && self@ is Node {
                lemma_cmp_is_specified::<T>();
                lemma_contains_narrows(self@, *target);
            }
        }
        match &self.value {
            Some(key) => match target.cmp(key) {
                Ordering::Equal => true,
                Ordering::Less => match &self.left {
                    Some(node) => node.search(target),
                    None => false,
                },
                Ordering::Greater => match &self.right {
                    Some(node) => node.search(target),
                    None => false,
                },
            },
            None => false,
        }
    }

    /// The parent-to-child links of the tree in the order in which they are
    /// drawn.
    pub fn edges(&self) -> (links: Vec<(T, T)>)
        ensures
            links@ == self@.edges(),
    {
        let mut links: Vec<(T, T)> = Vec::new();
        self.traverse_graphviz(&mut links);
        links
    }

    /// Appends to `links` the link to each child of this node, each followed
    /// by the links below that child, left side first.
    fn traverse_graphviz(&self, links: &mut Vec<(T, T)>)
        ensures
            final(links)@ == old(links)@ + self@.edges(),
        decreases self,
    {
        proof {
            use_type_invariant(self);
        }
        match &self.left {
            Some(node) => {
                links.push((self.value.unwrap(), node.value.unwrap()));
                node.traverse_graphviz(links);
            },
            None => (),
        }
        match &self.right {
            Some(node) => {
                links.push((self.value.unwrap(), node.value.unwrap()));
                node.traverse_graphviz(links);
            },
            None => (),
        }
    }
}

} // verus!
