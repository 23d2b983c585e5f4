//! A binary tree of `i32` values with ordered insertion and two traversals.

use std::collections::VecDeque;
use vstd::multiset::Multiset;
use vstd::prelude::*;

verus! {

/// A link to a subtree.
pub type BtNodeRef = Option<Box<BtNode>>;

/// A node of a binary tree, owning both of its subtrees.
#[derive(Debug)]
pub struct BtNode {
    pub val: i32,
    pub l: BtNodeRef,
    pub r: BtNodeRef,
}

/// The tree that `link` leads to, as a forest of at most one tree.
pub open spec fn linked(link: BtNodeRef) -> Seq<BtNode> {
    match link {
        Some(node) => seq![*node],
        None => seq![],
    }
}

/// The children of `node`, left before right.
pub open spec fn children(node: BtNode) -> Seq<BtNode> {
    linked(node.l) + linked(node.r)
}

/// The values at the roots of `forest`, in order.
pub open spec fn roots(forest: Seq<BtNode>) -> Seq<i32> {
    Seq::new(forest.len(), |i: int| forest[i].val)
}

/// All children of the trees of `forest`, in order: the next level down.
pub open spec fn next_level(forest: Seq<BtNode>) -> Seq<BtNode>
    decreases forest.len(),
{
    if forest.len() == 0 {
        seq![]
    } else {
        next_level(forest.drop_last()) + children(forest.last())
    }
}

/// The number of nodes in the trees of `forest`.
pub open spec fn forest_size(forest: Seq<BtNode>) -> nat
    decreases forest.len(),
{
    if forest.len() == 0 {
        0
    } else {
        forest_size(forest.drop_last()) + forest.last().size()
    }
}

/// The values of `forest` level by level: all roots, then all their
/// children, and so on down.
pub open spec fn by_levels(forest: Seq<BtNode>) -> Seq<i32>
    decreases forest_size(forest),
{
    if forest.len() == 0 {
        seq![]
    } else {
        proof {
            lemma_next_level_size(forest);
        }
        roots(forest) + by_levels(next_level(forest))
    }
}

/// The trees that the references of `queue` point to.
pub open spec fn pointees(queue: Seq<&BtNode>) -> Seq<BtNode> {
    Seq::new(queue.len(), |i: int| *queue[i])
}

impl BtNode {
    /// The number of nodes of the tree.
    pub open spec fn size(self) -> nat
        decreases self,
    {
        1 + (match self.l {
            Some(node) => node.size(),
            None => 0,
        }) + (match self.r {
            Some(node) => node.size(),
            None => 0,
        })
    }

    /// The multiset of values held in the tree.
    pub open spec fn contents(self) -> Multiset<i32>
        decreases self,
    {
        Multiset::singleton(self.val).add(
            match self.l {
                Some(node) => node.contents(),
                None => Multiset::empty(),
            },
        ).add(
            match self.r {
                Some(node) => node.contents(),
                None => Multiset::empty(),
            },
        )
    }

    /// Whether every value of the tree lies in the closed range `lo..=hi`.
    pub open spec fn within(self, lo: int, hi: int) -> bool
        decreases self,
    {
        &&& lo <= self.val <= hi
        &&& match self.l {
            Some(node) => node.within(lo, hi),
            None => true,
        }
        &&& match self.r {
            Some(node) => node.within(lo, hi),
            None => true,
        }
    }

    /// Whether the tree is a search tree: at every node the left subtree holds
    /// values up to the node's own, the right subtree greater ones.
    pub open spec fn ordered(self) -> bool
        decreases self,
    {
        &&& match self.l {
            Some(node) => node.ordered() && node.within(i32::MIN as int, self.val as int),
            None => true,
        }
        &&& match self.r {
            Some(node) => node.ordered() && node.within(self.val + 1, i32::MAX as int),
            None => true,
        }
    }

    /// The tree with a single node holding `val`.
    pub open spec fn leaf(val: i32) -> BtNode {
        BtNode { val, l: None, r: None }
    }

    /// The tree after `val` went down from the root, right where it is greater
    /// than a node's value and left otherwise, and became a leaf at the first
    /// empty link.
    pub open spec fn inserted(self, val: i32) -> BtNode
        decreases self,
    {
        if val > self.val {
            BtNode {
                val: self.val,
                l: self.l,
                r: Some(
                    Box::new(
                        match self.r {
                            Some(node) => node.inserted(val),
                            None => Self::leaf(val),
                        },
                    ),
                ),
            }
        } else {
            BtNode {
                val: self.val,
                l: Some(
                    Box::new(
                        match self.l {
                            Some(node) => node.inserted(val),
                            None => Self::leaf(val),
                        },
                    ),
                ),
                r: self.r,
            }
        }
    }

    /// The values in depth-first order: a node, then its left subtree, then
    /// its right subtree.
    pub open spec fn preorder(self) -> Seq<i32>
        decreases self,
    {
        seq![self.val] + (match self.l {
            Some(node) => node.preorder(),
            None => seq![],
        }) + (match self.r {
            Some(node) => node.preorder(),
            None => seq![],
        })
    }

    /// The values in breadth-first order: level by level, each level from
    /// left to right.
    pub open spec fn level_order(self) -> Seq<i32> {
        by_levels(seq![self])
    }

    /// A tree of one node.
    pub fn from(val: i32) -> (node: Self)
        ensures
            node == Self::leaf(val),
    {
        Self { val, l: None, r: None }
    }

    /// Inserts `val` below this node, keeping the shape of the rest.
    pub fn insert(&mut self, val: i32)
        ensures
            *final(self) == old(self).inserted(val),
        decreases *old(self),
    {
        if val > self.val {
            match self.r.take() {
                Some(mut node) => {
                    node.insert(val);
                    self.r = Some(node);
                },
                None => {
                    self.r = Some(Box::new(BtNode::from(val)));
                },
            }
        } else {
            match self.l.take() {
                Some(mut node) => {
                    node.insert(val);
                    self.l = Some(node);
                },
                None => {
                    self.l = Some(Box::new(BtNode::from(val)));
                },
            }
        }
    }

    /// The values of the tree in depth-first order.
    pub fn depth_first_search(&self) -> (v: Vec<i32>)
        ensures
            v@ == self.preorder(),
        decreases *self,
    {
        let mut v: Vec<i32> = Vec::new();
        v.push(self.val);
        if let Some(n) = &self.l {
            let mut sub = n.depth_first_search();
            v.append(&mut sub);
        }
        if let Some(n) = &self.r {
            let mut sub = n.depth_first_search();
            v.append(&mut sub);
        }
        v
    }

    /// The values of the tree in breadth-first order.
    pub fn breadth_first_search(&self) -> (v: Vec<i32>)
        ensures
            v@ == self.level_order(),
    {
        let mut v: Vec<i32> = Vec::new();
        let mut q: VecDeque<&BtNode> = VecDeque::new();
        q.push_back(self);
        // The level being emitted, how many of its trees are done, and what
        // the levels above it gave.
        let ghost mut level: Seq<BtNode> = seq![*self];
        let ghost mut done: int = 0;
        let ghost mut above: Seq<i32> = seq![];
        proof {
            assert(pointees(q@) =~= level);
            assert(level.subrange(0, 0) =~= Seq::<BtNode>::empty());
            assert(level.subrange(0, 1) =~= level);
            assert(roots(Seq::<BtNode>::empty()) =~= Seq::<i32>::empty());
        }
        while q.len() > 0
            invariant
                0 <= done <= level.len(),
                done < level.len() || level.len() == 0,
                above + by_levels(level) == self.level_order(),
                v@ == above + roots(level.subrange(0, done)),
                pointees(q@) == level.subrange(done, level.len() as int) + next_level(
                    level.subrange(0, done),
                ),
            decreases forest_size(pointees(q@)),
        {
            let ghost before = pointees(q@);
            let n = q.pop_front().unwrap();
            proof {
                if level.len() == 0 {
                    assert(level.subrange(0, done) =~= Seq::<BtNode>::empty());
                    assert(before.len() == 0);
                }
                assert(*n == level[done]) by {
                    assert(before[0] == *n);
                }
            }
            if let Some(c) = &n.l {
                q.push_back(&**c);
            }
            if let Some(c) = &n.r {
                q.push_back(&**c);
            }
            v.push(n.val);
            proof {
                let head = level.subrange(0, done);
                let grown = level.subrange(0, done + 1);
                let rest = level.subrange(done + 1, level.len() as int);
                assert(grown.drop_last() =~= head);
                assert(grown.last() == *n);
                assert(next_level(grown) == next_level(head) + children(*n));
                assert(roots(grown) =~= roots(head).push(n.val));
                assert(before.drop_first() =~= rest + next_level(head));
                assert(pointees(q@) =~= before.drop_first() + children(*n));
                assert(pointees(q@) =~= rest + next_level(grown));
                assert(before =~= seq![*n] + before.drop_first());
                lemma_forest_size_concat(seq![*n], before.drop_first());
                lemma_forest_size_concat(before.drop_first(), children(*n));
                lemma_forest_size_single(*n);
                lemma_forest_size_children(*n);
                done = done + 1;
                if done == level.len() {
                    assert(grown =~= level);
                    above = above + roots(level);
                    level = next_level(level);
                    done = 0;
                    assert(level.subrange(0, 0) =~= Seq::<BtNode>::empty());
                    assert(roots(Seq::<BtNode>::empty()) =~= Seq::<i32>::empty());
                    assert(pointees(q@) =~= level.subrange(0, level.len() as int) + next_level(
                        level.subrange(0, 0),
                    ));
                }
            }
        }
        proof {
            assert(level.len() == 0) by {
                if level.len() > 0 {
                    assert(pointees(q@).len() >= level.len() - done);
                }
            }
            assert(level.subrange(0, done) =~= Seq::<BtNode>::empty());
            assert(roots(Seq::<BtNode>::empty()) =~= Seq::<i32>::empty());
        }
        v
    }
}

/// The tree
///
/// ```text
///           5
///       4       7
///     2       6   8
///   1
/// ```
pub fn example_tree() -> (root: BtNode)
    ensures
        root == example(),
        root.preorder() == seq![5i32, 4, 2, 1, 7, 6, 8],
        root.level_order() == seq![5i32, 4, 7, 2, 6, 8, 1],
{
    let mut root = BtNode { val: 5, l: None, r: None };
    root.insert(4);
    root.insert(2);
    root.insert(1);

    root.insert(7);
    root.insert(6);
    root.insert(8);
    proof {
        lemma_example_traversals();
    }
    root
}

/// The tree of `example_tree` as a value.
pub open spec fn example() -> BtNode {
    BtNode::leaf(5).inserted(4).inserted(2).inserted(1).inserted(7).inserted(6).inserted(8)
}

/// The traversals of the example: depth first 5, 4, 2, 1, 7, 6, 8, and
/// breadth first 5, 4, 7, 2, 6, 8, 1.
pub proof fn lemma_example_traversals()
    ensures
        example().preorder() == seq![5i32, 4, 2, 1, 7, 6, 8],
        example().level_order() == seq![5i32, 4, 7, 2, 6, 8, 1],
{
    reveal_with_fuel(BtNode::inserted, 5);
    reveal_with_fuel(BtNode::preorder, 5);
    let n1 = BtNode::leaf(1);
    let n2 = BtNode { val: 2, l: Some(Box::new(n1)), r: None };
    let n4 = BtNode { val: 4, l: Some(Box::new(n2)), r: None };
    let n6 = BtNode::leaf(6);
    let n8 = BtNode::leaf(8);
    let n7 = BtNode { val: 7, l: Some(Box::new(n6)), r: Some(Box::new(n8)) };
    let n5 = BtNode { val: 5, l: Some(Box::new(n4)), r: Some(Box::new(n7)) };
    assert(example() == n5);
    assert(n1.preorder() =~= seq![1i32]);
    assert(n2.preorder() =~= seq![2i32, 1]);
    assert(n4.preorder() =~= seq![4i32, 2, 1]);
    assert(n6.preorder() =~= seq![6i32]);
    assert(n8.preorder() =~= seq![8i32]);
    assert(n7.preorder() =~= seq![7i32, 6, 8]);
    assert(n5.preorder() =~= seq![5i32, 4, 2, 1, 7, 6, 8]);

    let l0 = seq![n5];
    let l1 = seq![n4, n7];
    let l2 = seq![n2, n6, n8];
    let l3 = seq![n1];
    let l4 = Seq::<BtNode>::empty();
    assert(l0.drop_last() =~= l4);
    assert(next_level(l4) =~= l4);
    assert(next_level(l0) =~= l1);
    assert(l1.drop_last() =~= seq![n4]);
    assert(seq![n4].drop_last() =~= l4);
    assert(next_level(seq![n4]) =~= seq![n2]);
    assert(next_level(l1) =~= l2);
    assert(l2.drop_last() =~= seq![n2, n6]);
    assert(seq![n2, n6].drop_last() =~= seq![n2]);
    assert(seq![n2].drop_last() =~= l4);
    assert(next_level(seq![n2]) =~= l3);
    assert(next_level(seq![n2, n6]) =~= l3);
    assert(next_level(l2) =~= l3);
    assert(l3.drop_last() =~= l4);
    assert(next_level(l3) =~= l4);
    assert(by_levels(l4) =~= Seq::<i32>::empty());
    assert(roots(l3) =~= seq![1i32]);
    assert(by_levels(l3) =~= seq![1i32]);
    assert(roots(l2) =~= seq![2i32, 6, 8]);
    assert(by_levels(l2) =~= seq![2i32, 6, 8, 1]);
    assert(roots(l1) =~= seq![4i32, 7]);
    assert(by_levels(l1) =~= seq![4i32, 7, 2, 6, 8, 1]);
    assert(roots(l0) =~= seq![5i32]);
    assert(by_levels(l0) =~= seq![5i32, 4, 7, 2, 6, 8, 1]);
}

/// Insertion adds exactly one occurrence of the value and removes nothing.
pub proof fn lemma_insert_contents(node: BtNode, val: i32)
    ensures
        node.inserted(val).contents() =~= node.contents().insert(val),
    decreases node,
{
    assert(BtNode::leaf(val).contents() =~= Multiset::singleton(val));
    if val > node.val {
        match node.r {
            Some(n) => lemma_insert_contents(*n, val),
            None => {},
        }
    } else {
        match node.l {
            Some(n) => lemma_insert_contents(*n, val),
            None => {},
        }
    }
}

/// Insertion keeps every value within a range that holds the new value too.
pub proof fn lemma_insert_within(node: BtNode, val: i32, lo: int, hi: int)
    requires
        node.within(lo, hi),
        lo <= val <= hi,
    ensures
        node.inserted(val).within(lo, hi),
    decreases node,
{
    assert(BtNode::leaf(val).within(lo, hi));
    if val > node.val {
        match node.r {
            Some(n) => lemma_insert_within(*n, val, lo, hi),
            None => {},
        }
    } else {
        match node.l {
            Some(n) => lemma_insert_within(*n, val, lo, hi),
            None => {},
        }
    }
}

/// Insertion into a search tree gives a search tree.
pub proof fn lemma_insert_ordered(node: BtNode, val: i32)
    requires
        node.ordered(),
    ensures
        node.inserted(val).ordered(),
    decreases node,
{
    assert(BtNode::leaf(val).ordered());
    if val > node.val {
        assert(BtNode::leaf(val).within(node.val + 1, i32::MAX as int));
        match node.r {
            Some(n) => {
                lemma_insert_ordered(*n, val);
                lemma_insert_within(*n, val, node.val + 1, i32::MAX as int);
            },
            None => {},
        }
    } else {
        assert(BtNode::leaf(val).within(i32::MIN as int, node.val as int));
        match node.l {
            Some(n) => {
                lemma_insert_ordered(*n, val);
                lemma_insert_within(*n, val, i32::MIN as int, node.val as int);
            },
            None => {},
        }
    }
}

/// The depth-first traversal visits every node once: it is as long as the
/// tree is large.
pub proof fn lemma_preorder_len(node: BtNode)
    ensures
        node.preorder().len() == node.size(),
    decreases node,
{
    match node.l {
        Some(n) => lemma_preorder_len(*n),
        None => {},
    }
    match node.r {
        Some(n) => lemma_preorder_len(*n),
        None => {},
    }
}

/// Level by level, every node of a forest is named once.
pub proof fn lemma_by_levels_len(forest: Seq<BtNode>)
    ensures
        by_levels(forest).len() == forest_size(forest),
    decreases forest_size(forest),
{
    if forest.len() > 0 {
        lemma_next_level_size(forest);
        lemma_by_levels_len(next_level(forest));
    }
}

/// The breadth-first traversal visits every node once, as the depth-first
/// traversal does: both are as long as the tree is large.
pub proof fn lemma_traversals_len(node: BtNode)
    ensures
        node.level_order().len() == node.size(),
        node.level_order().len() == node.preorder().len(),
{
    lemma_by_levels_len(seq![node]);
    lemma_forest_size_single(node);
    lemma_preorder_len(node);
}

/// The size of a forest of one tree is the size of that tree.
pub proof fn lemma_forest_size_single(node: BtNode)
    ensures
        forest_size(seq![node]) == node.size(),
{
    assert(seq![node].drop_last() =~= Seq::<BtNode>::empty());
    assert(forest_size(seq![node].drop_last()) == 0);
}

/// The children of a node hold all of its nodes but the node itself.
pub proof fn lemma_forest_size_children(node: BtNode)
    ensures
        forest_size(children(node)) + 1 == node.size(),
{
    lemma_forest_size_concat(linked(node.l), linked(node.r));
    match node.l {
        Some(n) => lemma_forest_size_single(*n),
        None => {},
    }
    match node.r {
        Some(n) => lemma_forest_size_single(*n),
        None => {},
    }
}

/// Sizes of forests add up under concatenation.
pub proof fn lemma_forest_size_concat(a: Seq<BtNode>, b: Seq<BtNode>)
    ensures
        forest_size(a + b) == forest_size(a) + forest_size(b),
    decreases b.len(),
{
    if b.len() == 0 {
        assert(a + b =~= a);
    } else {
        assert((a + b).drop_last() =~= a + b.drop_last());
        assert((a + b).last() == b.last());
        lemma_forest_size_concat(a, b.drop_last());
    }
}

/// One level down, a non-empty forest has fewer nodes: each tree loses its
/// root.
pub proof fn lemma_next_level_size(forest: Seq<BtNode>)
    ensures
        forest_size(next_level(forest)) + forest.len() == forest_size(forest),
    decreases forest.len(),
{
    if forest.len() > 0 {
        lemma_next_level_size(forest.drop_last());
        lemma_forest_size_concat(next_level(forest.drop_last()), children(forest.last()));
        lemma_forest_size_children(forest.last());
    }
}

} // verus!
