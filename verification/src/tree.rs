//! An unbalanced binary search tree that stores a set of ordered values.
//!
//! The tree keeps one node per distinct value: inserting a value that is
//! already present changes nothing. Contracts speak of the tree through its
//! view, the [`Set`] of values it holds.

use vstd::prelude::*;

use crate::order::Comparison;
use crate::order::TotalOrder;

verus! {

/// One node: a value and the two child slots.
#[derive(Debug)]
struct Node<T: TotalOrder> {
    value: T,
    left: SubTree<T>,
    right: SubTree<T>,
}

/// A possibly empty subtree: no node at all, or an owned root node.
#[derive(Debug)]
struct SubTree<T: TotalOrder>(Option<Box<Node<T>>>);

/// An ordered container of distinct values, kept as an unbalanced binary
/// search tree: no rebalancing, so the shape depends on insertion order,
/// but the contents never do.
#[derive(Debug)]
pub struct BinaryTree<T: TotalOrder> {
    root: SubTree<T>,
}

impl<T: TotalOrder> SubTree<T> {
    /// The set of values this subtree holds.
    spec fn as_set(self) -> Set<T>
        decreases self,
    {
        match self.0 {
            None => Set::empty(),
            Some(node) => node.left.as_set().union(node.right.as_set()).insert(node.value),
        }
    }

    /// The search-tree ordering: at every node, the left subtree holds only
    /// strictly smaller values and the right subtree only strictly greater
    /// ones.
    spec fn wf(self) -> bool
        decreases self,
    {
        match self.0 {
            None => true,
            Some(node) => {
                &&& (forall|x: T| #[trigger] node.left.as_set().contains(x)
                    ==> x.le(node.value) && x != node.value)
                &&& (forall|x: T| #[trigger] node.right.as_set().contains(x)
                    ==> node.value.le(x) && x != node.value)
                &&& node.left.wf()
                &&& node.right.wf()
            },
        }
    }

    /// Descends to the slot the ordering dictates and puts `value` there;
    /// a value already present is left alone.
    fn insert(&mut self, value: T)
        requires
            old(self).wf(),
        ensures
            final(self).wf(),
            final(self).as_set() =~= old(self).as_set().insert(value),
        decreases *old(self),
    {
        let taken = self.0.take();
        match taken {
            None => {
                self.0 = Some(Box::new(Node { value, left: SubTree(None), right: SubTree(None) }));
            },
            Some(mut node) => {
                match value.compare(&node.value) {
                    Comparison::Less => {
                        node.left.insert(value);
                    },
                    Comparison::Greater => {
                        node.right.insert(value);
                    },
                    Comparison::Equal => {
                    },
                }
                self.0 = Some(node);
            },
        }
    }

    /// Walks the unique descent path for `value` and reports whether a node
    /// holding it was found.
    fn has(&self, value: &T) -> (r: bool)
        requires
            self.wf(),
        ensures
            r == self.as_set().contains(*value),
        decreases *self,
    {
        match &self.0 {
            None => false,
            Some(node) => {
                match value.compare(&node.value) {
                    Comparison::Equal => true,
                    Comparison::Less => {
                        proof {
                            if node.right.as_set().contains(*value) {
                                T::le_antisymmetric(*value, node.value);
                            }
                        }
                        node.left.has(value)
                    },
                    Comparison::Greater => {
                        proof {
                            if node.left.as_set().contains(*value) {
                                T::le_antisymmetric(node.value, *value);
                            }
                        }
                        node.right.has(value)
                    },
                }
            },
        }
    }

    /// Counts the nodes: zero for an empty subtree, otherwise one plus the
    /// counts of the two children.
    fn len(&self) -> (n: usize)
        requires
            self.wf(),
            self.as_set().len() <= usize::MAX,
        ensures
            n == self.as_set().len(),
        decreases *self,
    {
        match &self.0 {
            None => 0,
            Some(node) => {
                proof {
                    self.lemma_children_partition();
                }
                let left_count = node.left.len();
                let right_count = node.right.len();
                1 + left_count + right_count
            },
        }
    }

    /// A subtree holds finitely many values.
    proof fn lemma_set_finite(self)
        ensures
            self.as_set().finite(),
        decreases self,
    {
        match self.0 {
            None => {},
            Some(node) => {
                node.left.lemma_set_finite();
                node.right.lemma_set_finite();
            },
        }
    }

    /// At an ordered node the children hold disjoint sets, neither of which
    /// holds the node's own value, so the node's set is exactly one bigger
    /// than the two children's sets together.
    proof fn lemma_children_partition(self)
        requires
            self.wf(),
            self.0 is Some,
        ensures
            (self.0->Some_0).left.as_set().disjoint((self.0->Some_0).right.as_set()),
            !(self.0->Some_0).left.as_set().contains((self.0->Some_0).value),
            !(self.0->Some_0).right.as_set().contains((self.0->Some_0).value),
            self.as_set().len() == (self.0->Some_0).left.as_set().len()
                + (self.0->Some_0).right.as_set().len() + 1,
            self.as_set().finite(),
    {
        broadcast use vstd::set::group_set_axioms;

        let node = self.0->Some_0;
        node.left.lemma_set_finite();
        node.right.lemma_set_finite();
        assert forall|x: T|
            !(#[trigger] node.left.as_set().contains(x) && node.right.as_set().contains(x)) by {
            if node.left.as_set().contains(x) && node.right.as_set().contains(x) {
                T::le_antisymmetric(x, node.value);
            }
        }
        lemma_disjoint_union_len(node.left.as_set(), node.right.as_set());
    }
}

/// Two finite sets with no common element have a union exactly as big as
/// the two of them together.
proof fn lemma_disjoint_union_len<A>(s1: Set<A>, s2: Set<A>)
    requires
        s1.finite(),
        s2.finite(),
        s1.disjoint(s2),
    ensures
        s1.union(s2).len() == s1.len() + s2.len(),
    decreases s1.len(),
{
    broadcast use vstd::set::group_set_axioms;

    if s1.is_empty() {
        assert(s1.union(s2) =~= s2);
    } else {
        let a = s1.choose();
        assert(s1.contains(a));
        assert(s1.union(s2).remove(a) =~= s1.remove(a).union(s2));
        lemma_disjoint_union_len(s1.remove(a), s2);
    }
}

impl<T: TotalOrder> BinaryTree<T> {
    /// The whole tree is ordered.
    #[verifier::type_invariant]
    spec fn wf(self) -> bool {
        self.root.wf()
    }

    /// Returns the empty tree.
    pub fn new() -> (tree: Self)
        ensures
            tree@ == Set::<T>::empty(),
    {
        BinaryTree { root: SubTree(None) }
    }

    /// Adds `value` to the tree. When an equal value is already present the
    /// call has no observable effect: the tree is a set, not a multiset.
    pub fn insert(&mut self, value: T)
        ensures
            final(self)@ == old(self)@.insert(value),
    {
        proof {
            use_type_invariant(&*self);
        }
        let mut root = SubTree(None);
        core::mem::swap(&mut root, &mut self.root);
        root.insert(value);
        self.root = root;
    }

    /// Reports whether the tree holds a value equal to `value`, following
    /// the descent path that the ordering dictates and never mutating.
    pub fn has(&self, value: &T) -> (r: bool)
        ensures
            r == self@.contains(*value),
    {
        proof {
            use_type_invariant(&*self);
        }
        self.root.has(value)
    }

    /// Counts the values in the tree by full traversal. The count must fit
    /// in a machine word; [`BinaryTree::lemma_view_finite`] and the view
    /// contracts of [`BinaryTree::new`] and [`BinaryTree::insert`] let a
    /// caller bound it by the number of insertions made.
    pub fn len(&self) -> (n: usize)
        requires
            self@.len() <= usize::MAX,
        ensures
            n == self@.len(),
    {
        proof {
            use_type_invariant(&*self);
        }
        self.root.len()
    }

    /// A tree holds finitely many values.
    pub proof fn lemma_view_finite(self)
        ensures
            self@.finite(),
    {
        self.root.lemma_set_finite();
    }
}

impl<T: TotalOrder> View for BinaryTree<T> {
    type V = Set<T>;

    closed spec fn view(&self) -> Set<T> {
        self.root.as_set()
    }
}

/// The contents that a sequence of insertions leaves behind when it starts
/// from the contents `s`: each call to [`BinaryTree::insert`] turns the view
/// `v` into `v.insert(value)`, so a whole sequence of calls folds `insert`
/// over it.
pub open spec fn set_after_inserts<T>(s: Set<T>, values: Seq<T>) -> Set<T>
    decreases values.len(),
{
    if values.len() == 0 {
        s
    } else {
        set_after_inserts(s, values.drop_last()).insert(values.last())
    }
}

/// Inserting a value twice leaves exactly the contents that inserting it
/// once leaves, so the second call changes neither the count nor any
/// membership answer.
pub proof fn lemma_insert_idempotent<T>(s: Set<T>, value: T)
    ensures
        s.insert(value).insert(value) == s.insert(value),
{
    assert(s.insert(value).insert(value) =~= s.insert(value));
}

/// After a sequence of insertions the tree holds exactly the values of the
/// sequence and those it held before: every inserted value is found, and a
/// value neither held before nor inserted is still absent.
pub proof fn lemma_inserts_membership<T>(s: Set<T>, values: Seq<T>)
    ensures
        forall|i: int|
            0 <= i < values.len() ==> set_after_inserts(s, values).contains(#[trigger] values[i]),
        forall|x: T|
            set_after_inserts(s, values).contains(x) <==> s.contains(x) || values.contains(x),
    decreases values.len(),
{
    if values.len() > 0 {
        lemma_inserts_membership(s, values.drop_last());
        assert forall|x: T|
            set_after_inserts(s, values).contains(x) <==> s.contains(x)
                || values.contains(x) by {
            if values.contains(x) {
                let i = choose|i: int| 0 <= i < values.len() && values[i] == x;
                if i < values.len() - 1 {
                    assert(values.drop_last()[i] == x);
                }
            }
            if values.drop_last().contains(x) {
                let i = choose|i: int|
                    0 <= i < values.drop_last().len() && values.drop_last()[i] == x;
                assert(values[i] == x);
            }
        }
    }
    assert forall|i: int|
        0 <= i < values.len() implies set_after_inserts(s, values).contains(
        #[trigger] values[i],
    ) by {
        assert(values.contains(values[i]));
    }
}

/// Starting from the empty tree, a sequence of insertions leaves exactly
/// one value per distinct value of the sequence: the final count equals the
/// number of distinct values, duplicates counted once.
pub proof fn lemma_inserts_distinct_count<T>(values: Seq<T>)
    ensures
        set_after_inserts(Set::empty(), values) == values.to_set(),
        set_after_inserts(Set::empty(), values).len() == values.to_set().len(),
{
    lemma_inserts_membership(Set::empty(), values);
    assert(set_after_inserts(Set::empty(), values) =~= values.to_set());
}

/// Inserting the same multiset of values in any order leaves the same
/// contents, so the final count and every membership answer agree, however
/// the tree shapes may differ.
pub proof fn lemma_inserts_order_independent<T>(s: Set<T>, values1: Seq<T>, values2: Seq<T>)
    requires
        values1.to_multiset() == values2.to_multiset(),
    ensures
        set_after_inserts(s, values1) == set_after_inserts(s, values2),
{
    lemma_inserts_membership(s, values1);
    lemma_inserts_membership(s, values2);
    values1.to_multiset_ensures();
    values2.to_multiset_ensures();
    assert forall|x: T|
        set_after_inserts(s, values1).contains(x) == set_after_inserts(s, values2).contains(
        x,
    ) by {
        assert(values1.contains(x) <==> values1.to_multiset().count(x) > 0);
        assert(values2.contains(x) <==> values2.to_multiset().count(x) > 0);
        assert(set_after_inserts(s, values1).contains(x) <==> s.contains(x)
            || values1.contains(x));
        assert(set_after_inserts(s, values2).contains(x) <==> s.contains(x)
            || values2.contains(x));
    }
    assert(set_after_inserts(s, values1) =~= set_after_inserts(s, values2));
}

} // verus!
