//! The mathematical model of a tree: which value sits where.
//!
//! A [`Shape`] is what a tree *is*, stripped of boxes and placeholders. All
//! contracts of the executable tree are stated over it, and the laws of the
//! data structure are proved about it here.

use crate::order::{
    above, at_most, lemma_cmp_congruent, lemma_cmp_mirror, lemma_cmp_reflexive,
    lemma_cmp_transitive, same,
};
use std::cmp::Ordering;
use vstd::laws_cmp::obeys_cmp;
use vstd::multiset::Multiset;
use vstd::prelude::*;
use vstd::seq_lib::to_multiset_build;
use vstd::std_specs::cmp::OrdSpec;

verus! {

/// A binary tree of values: either nothing, or a value with a subtree on
/// each side.
pub enum Shape<T> {
    Empty,
    Node { left: Box<Shape<T>>, value: T, right: Box<Shape<T>> },
}

impl<T> Shape<T> {
    /// The tree that holds `value` and nothing else.
    pub open spec fn leaf(value: T) -> Shape<T> {
        Shape::Node { left: Box::new(Shape::Empty), value, right: Box::new(Shape::Empty) }
    }

    /// The value at the top, if there is one.
    pub open spec fn root(self) -> Option<T> {
        match self {
            Shape::Empty => None,
            Shape::Node { value, .. } => Some(value),
        }
    }

    /// Every value in the tree, as often as it occurs.
    pub open spec fn values(self) -> Multiset<T>
        decreases self,
    {
        match self {
            Shape::Empty => Multiset::empty(),
            Shape::Node { left, value, right } => left.values().add(right.values()).insert(value),
        }
    }

    /// The value reached by going left for as long as possible.
    pub open spec fn leftmost(self) -> Option<T>
        decreases self,
    {
        match self {
            Shape::Empty => None,
            Shape::Node { left, value, .. } => if *left is Empty {
                Some(value)
            } else {
                left.leftmost()
            },
        }
    }

    /// The value reached by going right for as long as possible.
    pub open spec fn rightmost(self) -> Option<T>
        decreases self,
    {
        match self {
            Shape::Empty => None,
            Shape::Node { value, right, .. } => if *right is Empty {
                Some(value)
            } else {
                right.rightmost()
            },
        }
    }

    /// The parent-to-child links of the tree, as `(parent, child)` pairs of
    /// values. A node lists the link to its left child, then every link
    /// inside the left subtree, then the same for its right side.
    pub open spec fn edges(self) -> Seq<(T, T)>
        decreases self, 0nat,
    {
        match self {
            Shape::Empty => Seq::empty(),
            Shape::Node { left, value, right } => Self::branch(value, *left) + Self::branch(
                value,
                *right,
            ),
        }
    }

    /// The link from `parent` down to the top of `child`, followed by the
    /// links inside `child`; nothing if `child` is empty.
    pub open spec fn branch(parent: T, child: Shape<T>) -> Seq<(T, T)>
        decreases child, 1nat,
    {
        match child.root() {
            None => Seq::empty(),
            Some(top) => seq![(parent, top)] + child.edges(),
        }
    }

    /// The subtree found by walking `path` from the top, where `false` steps
    /// left and `true` steps right. Walking off the tree yields `Empty`.
    pub open spec fn subtree(self, path: Seq<bool>) -> Shape<T>
        decreases path.len(),
    {
        if path.len() == 0 {
            self
        } else {
            match self {
                Shape::Empty => Shape::Empty,
                Shape::Node { left, right, .. } => if path[0] {
                    right.subtree(path.drop_first())
                } else {
                    left.subtree(path.drop_first())
                },
            }
        }
    }
}

impl<T: Ord> Shape<T> {
    /// The search-tree order: at every node, nothing on the left sorts after
    /// the node's value and everything on the right does.
    pub open spec fn ordered(self) -> bool
        decreases self,
    {
        match self {
            Shape::Empty => true,
            Shape::Node { left, value, right } => {
                &&& left.ordered()
                &&& right.ordered()
                &&& forall|v: T| #[trigger] left.values().contains(v) ==> at_most(v, value)
                &&& forall|v: T| #[trigger] right.values().contains(v) ==> above(v, value)
            },
        }
    }

    /// The tree after `v` is inserted: `v` descends left where it does not
    /// sort after the node's value (ties included), right where it does, and
    /// becomes a leaf at the first free slot.
    pub open spec fn insert(self, v: T) -> Shape<T>
        decreases self,
    {
        match self {
            Shape::Empty => Shape::leaf(v),
            Shape::Node { left, value, right } => if above(v, value) {
                Shape::Node { left, value, right: Box::new(right.insert(v)) }
            } else {
                Shape::Node { left: Box::new(left.insert(v)), value, right }
            },
        }
    }

    /// The path from the top to the slot where `insert(v)` puts its leaf.
    pub open spec fn landing(self, v: T) -> Seq<bool>
        decreases self,
    {
        match self {
            Shape::Empty => Seq::empty(),
            Shape::Node { left, value, right } => if above(v, value) {
                seq![true] + right.landing(v)
            } else {
                seq![false] + left.landing(v)
            },
        }
    }

    /// Some value in the tree compares as equal to `q`.
    pub open spec fn contains(self, q: T) -> bool {
        exists|v: T| #[trigger] self.values().contains(v) && same(q, v)
    }

    /// The tree grown from nothing by inserting `items` in order.
    pub open spec fn grown(items: Seq<T>) -> Shape<T>
        decreases items.len(),
    {
        if items.len() == 0 {
            Shape::Empty
        } else {
            Self::grown(items.drop_last()).insert(items.last())
        }
    }
}

/// Cutting a whole side off an ordered tree leaves it ordered.
pub proof fn lemma_pruned_ordered<T: Ord>(t: Shape<T>)
    requires
        t.ordered(),
        t is Node,
    ensures
        (Shape::Node { left: t->left, value: t->value, right: Box::new(Shape::Empty) }).ordered(),
        (Shape::Node { left: Box::new(Shape::Empty), value: t->value, right: t->right }).ordered(),
{
    assert(Shape::<T>::Empty.ordered());
    assert(Shape::<T>::Empty.values() =~= Multiset::empty());
}

/// Inserting adds exactly one occurrence of the value and touches nothing
/// else.
pub proof fn lemma_insert_values<T: Ord>(t: Shape<T>, v: T)
    ensures
        t.insert(v).values() == t.values().insert(v),
    decreases t,
{
    match t {
        Shape::Empty => {
            assert(t.insert(v).values() =~= t.values().insert(v));
        },
        Shape::Node { left, value, right } => {
            lemma_insert_values(*left, v);
            lemma_insert_values(*right, v);
            assert(t.insert(v).values() =~= t.values().insert(v));
        },
    }
}

/// Inserting into an ordered tree leaves it ordered.
pub proof fn lemma_insert_ordered<T: Ord>(t: Shape<T>, v: T)
    requires
        t.ordered(),
    ensures
        t.insert(v).ordered(),
    decreases t,
{
    match t {
        Shape::Empty => {
            assert(Shape::<T>::Empty.values() =~= Multiset::empty());
        },
        Shape::Node { left, value, right } => {
            lemma_insert_values(*left, v);
            lemma_insert_values(*right, v);
            lemma_insert_ordered(*left, v);
            lemma_insert_ordered(*right, v);
            if above(v, value) {
                assert forall|x: T| #[trigger]
                    right.insert(v).values().contains(x) implies above(x, value) by {
                    assert(x == v || right.values().contains(x));
                }
            } else {
                assert forall|x: T| #[trigger]
                    left.insert(v).values().contains(x) implies at_most(x, value) by {
                    assert(x == v || left.values().contains(x));
                }
            }
        },
    }
}

/// A tree grown from a sequence holds exactly the items of the sequence.
pub proof fn lemma_grown_values<T: Ord>(items: Seq<T>)
    ensures
        Shape::grown(items).values() == items.to_multiset(),
    decreases items.len(),
{
    if items.len() == 0 {
        assert(Shape::<T>::grown(items).values() =~= Multiset::empty());
        assert(items.to_multiset() =~= Multiset::empty()) by {
            items.to_multiset_ensures();
        }
    } else {
        lemma_grown_values(items.drop_last());
        lemma_insert_values(Shape::grown(items.drop_last()), items.last());
        to_multiset_build(items.drop_last(), items.last());
        assert(items.drop_last().push(items.last()) =~= items);
    }
}

/// Whatever is inserted, and in whatever order, the tree grown from
/// nothing is ordered.
pub proof fn lemma_grown_ordered<T: Ord>(items: Seq<T>)
    ensures
        Shape::grown(items).ordered(),
    decreases items.len(),
{
    if items.len() != 0 {
        lemma_grown_ordered(items.drop_last());
        lemma_insert_ordered(Shape::grown(items.drop_last()), items.last());
    }
}

/// A grown tree contains a query exactly when the query compares as equal
/// to one of the inserted items.
pub proof fn lemma_grown_contains<T: Ord>(items: Seq<T>, q: T)
    ensures
        Shape::grown(items).contains(q) <==> exists|i: int|
            0 <= i < items.len() && same(q, #[trigger] items[i]),
{
    lemma_grown_values(items);
    items.to_multiset_ensures();
    let t = Shape::grown(items);
    if t.contains(q) {
        let w = choose|w: T| #[trigger] t.values().contains(w) && same(q, w);
        assert(items.contains(w));
        let i = choose|i: int| 0 <= i < items.len() && items[i] == w;
        assert(same(q, items[i]));
    }
    if exists|i: int| 0 <= i < items.len() && same(q, #[trigger] items[i]) {
        let i = choose|i: int| 0 <= i < items.len() && same(q, #[trigger] items[i]);
        assert(items.contains(items[i]));
        assert(t.values().contains(items[i]));
    }
}

/// After an insertion the tree contains what it contained before and
/// whatever compares as equal to the new value.
pub proof fn lemma_insert_contains<T: Ord>(t: Shape<T>, v: T, q: T)
    ensures
        t.insert(v).contains(q) <==> t.contains(q) || same(q, v),
{
    lemma_insert_values(t, v);
    let after = t.insert(v);
    if after.contains(q) {
        let w = choose|w: T| #[trigger] after.values().contains(w) && same(q, w);
        assert(w == v || t.values().contains(w));
    }
    if t.contains(q) {
        let w = choose|w: T| #[trigger] t.values().contains(w) && same(q, w);
        assert(after.values().contains(w));
    }
    if same(q, v) {
        assert(after.values().contains(v));
    }
}

/// A value inserted twice is kept twice, and its second occurrence becomes
/// the left child of its first: at the slot where the first insertion puts
/// its leaf, the second leaves that node with a leaf of the same value on its
/// left and nothing on its right.
pub proof fn lemma_duplicate_goes_left<T: Ord>(t: Shape<T>, v: T)
    requires
        obeys_cmp::<T>(),
    ensures
        t.subtree(t.landing(v)) is Empty,
        t.insert(v).subtree(t.landing(v)) == Shape::leaf(v),
        t.insert(v).insert(v).subtree(t.landing(v)) == (Shape::Node {
            left: Box::new(Shape::leaf(v)),
            value: v,
            right: Box::new(Shape::Empty),
        }),
        t.insert(v).insert(v).values().count(v) == t.values().count(v) + 2,
    decreases t,
{
    lemma_insert_values(t, v);
    lemma_insert_values(t.insert(v), v);
    lemma_cmp_reflexive(v);
    match t {
        Shape::Empty => {
            assert(Shape::leaf(v).insert(v) == Shape::Node {
                left: Box::new(Shape::<T>::Empty.insert(v)),
                value: v,
                right: Box::new(Shape::Empty),
            });
        },
        Shape::Node { left, value, right } => {
            let path = t.landing(v);
            if above(v, value) {
                lemma_duplicate_goes_left(*right, v);
                assert(path.drop_first() =~= right.landing(v));
            } else {
                lemma_duplicate_goes_left(*left, v);
                assert(path.drop_first() =~= left.landing(v));
            }
        },
    }
}

/// A tree has one link fewer than it has values, and an empty tree has
/// none.
pub proof fn lemma_edge_count<T>(t: Shape<T>)
    ensures
        t.edges().len() == if t is Empty {
            0
        } else {
            t.values().len() - 1
        },
    decreases t,
{
    if let Shape::Node { left, value, right } = t {
        lemma_edge_count(*left);
        lemma_edge_count(*right);
        assert(Shape::<T>::Empty.values() =~= Multiset::empty());
        assert(Shape::branch(value, *left).len() == left.values().len());
        assert(Shape::branch(value, *right).len() == right.values().len());
    }
}

/// An empty tree contains nothing.
pub proof fn lemma_empty_contains_nothing<T: Ord>(q: T)
    ensures
        !Shape::<T>::Empty.contains(q),
{
    assert(Shape::<T>::Empty.values() =~= Multiset::empty());
}

/// In an ordered tree one comparison against the top value tells on which
/// side a query can still be found.
pub proof fn lemma_contains_narrows<T: Ord>(t: Shape<T>, q: T)
    requires
        obeys_cmp::<T>(),
        t.ordered(),
        t is Node,
    ensures
        same(q, t->value) ==> t.contains(q),
        q.cmp_spec(&t->value) == Ordering::Less ==> (t.contains(q) <==> t->left.contains(q)),
        q.cmp_spec(&t->value) == Ordering::Greater ==> (t.contains(q) <==> t->right.contains(q)),
{
    let left = *t->left;
    let value = t->value;
    let right = *t->right;
    assert(t.values().contains(value));
    if left.contains(q) {
        let w = choose|w: T| #[trigger] left.values().contains(w) && same(q, w);
        assert(t.values().contains(w));
    }
    if right.contains(q) {
        let w = choose|w: T| #[trigger] right.values().contains(w) && same(q, w);
        assert(t.values().contains(w));
    }
    if t.contains(q) {
        let w = choose|w: T| #[trigger] t.values().contains(w) && same(q, w);
        lemma_cmp_congruent(q, w, value);
        assert(w == value || left.values().contains(w) || right.values().contains(w));
    }
}

/// The leftmost value of a tree is one of its values, and a tree without a
/// leftmost value is empty.
pub proof fn lemma_leftmost_member<T>(t: Shape<T>)
    ensures
        match t.leftmost() {
            None => t is Empty,
            Some(m) => t.values().contains(m),
        },
    decreases t,
{
    if let Shape::Node { left, value, right } = t {
        lemma_leftmost_member(*left);
    }
}

/// The rightmost value of a tree is one of its values, and a tree without a
/// rightmost value is empty.
pub proof fn lemma_rightmost_member<T>(t: Shape<T>)
    ensures
        match t.rightmost() {
            None => t is Empty,
            Some(m) => t.values().contains(m),
        },
    decreases t,
{
    if let Shape::Node { left, value, right } = t {
        lemma_rightmost_member(*right);
    }
}

/// In an ordered tree no value sorts before the leftmost one.
pub proof fn lemma_leftmost_least<T: Ord>(t: Shape<T>)
    requires
        obeys_cmp::<T>(),
        t.ordered(),
    ensures
        t.leftmost() matches Some(m) ==> forall|v: T| #[trigger]
            t.values().contains(v) ==> at_most(m, v),
    decreases t,
{
    if let Shape::Node { left, value, right } = t {
        let m = t.leftmost()->0;
        lemma_leftmost_member(*left);
        lemma_leftmost_least(*left);
        lemma_cmp_reflexive(value);
        assert(at_most(m, value));
        assert forall|v: T| #[trigger] t.values().contains(v) implies at_most(m, v) by {
            assert(v == value || left.values().contains(v) || right.values().contains(v));
            if right.values().contains(v) {
                lemma_cmp_mirror(v, value);
                lemma_cmp_transitive(m, value, v);
            }
        }
    }
}

/// In an ordered tree no value sorts after the rightmost one.
pub proof fn lemma_rightmost_greatest<T: Ord>(t: Shape<T>)
    requires
        obeys_cmp::<T>(),
        t.ordered(),
    ensures
        t.rightmost() matches Some(m) ==> forall|v: T| #[trigger]
            t.values().contains(v) ==> at_most(v, m),
    decreases t,
{
    if let Shape::Node { left, value, right } = t {
        let m = t.rightmost()->0;
        lemma_rightmost_member(*right);
        lemma_rightmost_greatest(*right);
        lemma_cmp_reflexive(value);
        if !(*right is Empty) {
            lemma_cmp_mirror(m, value);
        }
        assert(at_most(value, m));
        assert forall|v: T| #[trigger] t.values().contains(v) implies at_most(v, m) by {
            assert(v == value || left.values().contains(v) || right.values().contains(v));
            if left.values().contains(v) {
                lemma_cmp_transitive(v, value, m);
            }
        }
    }
}

} // verus!
