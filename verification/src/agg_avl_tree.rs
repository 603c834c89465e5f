//! Order-statistic aggregate tree: an AVL tree keyed implicitly by
//! in-order position, with a cached element count, height and sum
//! aggregate at every internal node.
//!
//! Insert, update, delete and range-sum queries are all O(log n).
//! The aggregate is the sum of the stored values; the sequence of
//! leaf values, in order, is the abstract state.

use crate::error::AggAvlTreeError;
use vstd::pervasive::unreached;
use vstd::prelude::*;

verus! {

/// The larger of two heights.
pub open spec fn nat_max(a: nat, b: nat) -> nat {
    if a >= b {
        a
    } else {
        b
    }
}

/// Where a requested insertion position actually lands: past-the-end
/// requests are clamped to an append.
pub open spec fn clamp_idx(idx: int, len: int) -> int {
    if idx <= len {
        idx
    } else {
        len
    }
}

/// Sum of a sequence of values, as a mathematical integer.
pub open spec fn seq_sum(s: Seq<usize>) -> int
    decreases s.len(),
{
    if s.len() == 0 {
        0
    } else {
        s[0] + seq_sum(s.drop_first())
    }
}

pub proof fn lemma_seq_sum_nonneg(s: Seq<usize>)
    ensures
        0 <= seq_sum(s),
    decreases s.len(),
{
    if s.len() > 0 {
        lemma_seq_sum_nonneg(s.drop_first());
    }
}

pub proof fn lemma_seq_sum_singleton(v: usize)
    ensures
        seq_sum(seq![v]) == v,
{
    reveal_with_fuel(seq_sum, 2);
    assert(seq![v].drop_first() =~= Seq::<usize>::empty());
}

pub proof fn lemma_seq_sum_concat(a: Seq<usize>, b: Seq<usize>)
    ensures
        seq_sum(a + b) == seq_sum(a) + seq_sum(b),
    decreases a.len(),
{
    if a.len() == 0 {
        assert(a + b =~= b);
    } else {
        assert((a + b).drop_first() =~= a.drop_first() + b);
        lemma_seq_sum_concat(a.drop_first(), b);
    }
}

pub proof fn lemma_seq_sum_insert(s: Seq<usize>, i: int, v: usize)
    requires
        0 <= i <= s.len(),
    ensures
        seq_sum(s.insert(i, v)) == seq_sum(s) + v,
{
    assert(s.insert(i, v) =~= s.subrange(0, i) + seq![v] + s.subrange(i, s.len() as int));
    assert(s =~= s.subrange(0, i) + s.subrange(i, s.len() as int));
    lemma_seq_sum_concat(s.subrange(0, i) + seq![v], s.subrange(i, s.len() as int));
    lemma_seq_sum_concat(s.subrange(0, i), seq![v]);
    lemma_seq_sum_concat(s.subrange(0, i), s.subrange(i, s.len() as int));
    lemma_seq_sum_singleton(v);
}

pub proof fn lemma_seq_sum_update(s: Seq<usize>, i: int, v: usize)
    requires
        0 <= i < s.len(),
    ensures
        seq_sum(s.update(i, v)) == seq_sum(s) - s[i] + v,
{
    assert(s.update(i, v) =~= s.subrange(0, i) + seq![v] + s.subrange(i + 1, s.len() as int));
    assert(s =~= s.subrange(0, i) + seq![s[i]] + s.subrange(i + 1, s.len() as int));
    lemma_seq_sum_concat(s.subrange(0, i) + seq![v], s.subrange(i + 1, s.len() as int));
    lemma_seq_sum_concat(s.subrange(0, i), seq![v]);
    lemma_seq_sum_concat(s.subrange(0, i) + seq![s[i]], s.subrange(i + 1, s.len() as int));
    lemma_seq_sum_concat(s.subrange(0, i), seq![s[i]]);
    lemma_seq_sum_singleton(v);
    lemma_seq_sum_singleton(s[i]);
}

pub proof fn lemma_seq_sum_remove(s: Seq<usize>, i: int)
    requires
        0 <= i < s.len(),
    ensures
        seq_sum(s.remove(i)) == seq_sum(s) - s[i],
{
    assert(s.remove(i) =~= s.subrange(0, i) + s.subrange(i + 1, s.len() as int));
    assert(s =~= s.subrange(0, i) + seq![s[i]] + s.subrange(i + 1, s.len() as int));
    lemma_seq_sum_concat(s.subrange(0, i), s.subrange(i + 1, s.len() as int));
    lemma_seq_sum_concat(s.subrange(0, i) + seq![s[i]], s.subrange(i + 1, s.len() as int));
    lemma_seq_sum_concat(s.subrange(0, i), seq![s[i]]);
    lemma_seq_sum_singleton(s[i]);
}

/// Splitting a subrange sum at an interior point.
pub proof fn lemma_seq_sum_subrange_split(s: Seq<usize>, a: int, b: int, c: int)
    requires
        0 <= a <= b <= c <= s.len(),
    ensures
        seq_sum(s.subrange(a, c)) == seq_sum(s.subrange(a, b)) + seq_sum(s.subrange(b, c)),
{
    assert(s.subrange(a, c) =~= s.subrange(a, b) + s.subrange(b, c));
    lemma_seq_sum_concat(s.subrange(a, b), s.subrange(b, c));
}

/// A subrange never sums to more than the whole sequence.
pub proof fn lemma_seq_sum_subrange_bound(s: Seq<usize>, a: int, b: int)
    requires
        0 <= a <= b <= s.len(),
    ensures
        0 <= seq_sum(s.subrange(a, b)) <= seq_sum(s),
{
    lemma_seq_sum_nonneg(s.subrange(a, b));
    lemma_seq_sum_nonneg(s.subrange(0, a));
    lemma_seq_sum_nonneg(s.subrange(b, s.len() as int));
    lemma_seq_sum_subrange_split(s, 0, a, s.len() as int);
    lemma_seq_sum_subrange_split(s, a, b, s.len() as int);
    assert(s.subrange(0, s.len() as int) =~= s);
}

/// The aggregate over the positions of `s` that fall in `[start, end)`,
/// or nothing when that intersection is empty. This is the naive
/// specification that `get_range` is proved against.
pub open spec fn range_sum(s: Seq<usize>, start: int, end: int) -> Option<int> {
    let lo = if start > 0 {
        start
    } else {
        0
    };
    let hi = if end < s.len() {
        end
    } else {
        s.len() as int
    };
    if lo < hi {
        Some(seq_sum(s.subrange(lo, hi)))
    } else {
        None
    }
}

/// How a range query over a concatenation decomposes into queries of
/// the two halves, mirroring the recursive descent of `get_range`.
proof fn lemma_range_sum_split(l: Seq<usize>, r: Seq<usize>, start: int, end: int)
    requires
        0 <= start,
        l.len() > 0,
        r.len() > 0,
    ensures
        ({
            let m = l.len() as int;
            let combined = range_sum(l + r, start, end);
            let lp = range_sum(l, start, if end < m { end } else { m });
            let rp = if m < end {
                range_sum(r, if start > m { start - m } else { 0 }, end - m)
            } else {
                None
            };
            match (lp, rp) {
                (Some(a), Some(b)) => combined == Some(a + b),
                (Some(a), None) => combined == Some(a),
                (None, Some(b)) => combined == Some(b),
                (None, None) => combined is None,
            }
        }),
{
    let s = l + r;
    let m = l.len() as int;
    let n = s.len() as int;
    let hi = if end < n { end } else { n };
    if start < hi {
        if hi <= m {
            assert(s.subrange(start, hi) =~= l.subrange(start, hi));
        } else if start >= m {
            assert(s.subrange(start, hi) =~= r.subrange(start - m, hi - m));
        } else {
            lemma_seq_sum_subrange_split(s, start, m, hi);
            assert(s.subrange(start, m) =~= l.subrange(start, m));
            assert(s.subrange(m, hi) =~= r.subrange(0, hi - m));
        }
    }
}

/// In-order contents of an internal node.
spec fn node_elems(c: ChildNode) -> Seq<usize> {
    c.left.elems() + c.right.elems()
}

/// Height of an internal node.
spec fn node_height(c: ChildNode) -> nat {
    1 + nat_max(c.left.height(), c.right.height())
}

/// Cached fields of an internal node agree with its subtrees.
spec fn node_wf(c: ChildNode) -> bool {
    &&& c.left.well_formed()
    &&& c.right.well_formed()
    &&& c.elem_count == c.left.elems().len() + c.right.elems().len()
    &&& c.agg == seq_sum(c.left.elems()) + seq_sum(c.right.elems())
    &&& c.child_height == node_height(c)
}

struct LeafNode {
    val: usize,
}

struct ChildNode {
    left: TreeNode,
    right: TreeNode,
    /// Height of this internal node (a leaf has height 0).
    child_height: usize,
    elem_count: usize,
    agg: usize,
}

enum TreeNode {
    Leaf(LeafNode),
    Child(Box<ChildNode>),
}

impl TreeNode {
    /// The in-order sequence of stored values.
    spec fn elems(self) -> Seq<usize>
        decreases self,
    {
        match self {
            TreeNode::Leaf(l) => seq![l.val],
            TreeNode::Child(c) => c.left.elems() + c.right.elems(),
        }
    }

    spec fn height(self) -> nat
        decreases self,
    {
        match self {
            TreeNode::Leaf(_) => 0,
            TreeNode::Child(c) => 1 + nat_max(c.left.height(), c.right.height()),
        }
    }

    /// Every cached field agrees with the subtree it summarises.
    spec fn well_formed(self) -> bool
        decreases self,
    {
        match self {
            TreeNode::Leaf(_) => true,
            TreeNode::Child(c) => {
                &&& c.left.well_formed()
                &&& c.right.well_formed()
                &&& c.elem_count == c.left.elems().len() + c.right.elems().len()
                &&& c.agg == seq_sum(c.left.elems()) + seq_sum(c.right.elems())
                &&& c.child_height == 1 + nat_max(c.left.height(), c.right.height())
            },
        }
    }

    /// The AVL shape invariant: the heights of the two subtrees of
    /// every internal node differ by at most one.
    spec fn balanced(self) -> bool
        decreases self,
    {
        match self {
            TreeNode::Leaf(_) => true,
            TreeNode::Child(c) => {
                &&& c.left.balanced()
                &&& c.right.balanced()
                &&& -1 <= c.left.height() - c.right.height() <= 1
            },
        }
    }

    proof fn lemma_elems_len_pos(self)
        ensures
            self.elems().len() >= 1,
        decreases self,
    {
        match self {
            TreeNode::Leaf(_) => {},
            TreeNode::Child(c) => {
                c.left.lemma_elems_len_pos();
                c.right.lemma_elems_len_pos();
            },
        }
    }

    proof fn lemma_height_lt_len(self)
        ensures
            self.height() < self.elems().len(),
        decreases self,
    {
        match self {
            TreeNode::Leaf(_) => {},
            TreeNode::Child(c) => {
                c.left.lemma_height_lt_len();
                c.right.lemma_height_lt_len();
            },
        }
    }

    /// Sum of the whole subtree, bounded by the cached aggregate of
    /// any well-formed ancestor; nonnegative in any case.
    proof fn lemma_sum_bounds(self)
        ensures
            0 <= seq_sum(self.elems()),
        decreases self,
    {
        lemma_seq_sum_nonneg(self.elems());
    }

    fn get_height(&self) -> (h: usize)
        requires
            self.well_formed(),
        ensures
            h == self.height(),
    {
        match self {
            TreeNode::Leaf(_) => 0,
            TreeNode::Child(c) => c.child_height,
        }
    }

    fn get_elem_count(&self) -> (n: usize)
        requires
            self.well_formed(),
        ensures
            n == self.elems().len(),
    {
        match self {
            TreeNode::Leaf(_) => 1,
            TreeNode::Child(c) => c.elem_count,
        }
    }

    fn get_agg(&self) -> (a: usize)
        requires
            self.well_formed(),
        ensures
            a == seq_sum(self.elems()),
    {
        match self {
            TreeNode::Leaf(l) => {
                proof {
                    assert(self.elems() == seq![l.val]);
                    lemma_seq_sum_singleton(l.val);
                }
                l.val
            },
            TreeNode::Child(c) => {
                proof {
                    lemma_seq_sum_concat(c.left.elems(), c.right.elems());
                }
                c.agg
            },
        }
    }
}

impl LeafNode {
    fn new(val: usize) -> (l: LeafNode)
        ensures
            l.val == val,
    {
        LeafNode { val }
    }
}

impl ChildNode {
    /// Groups two subtrees under a fresh internal node, computing the
    /// cached aggregate, height and element count.
    fn new(left: TreeNode, right: TreeNode) -> (c: ChildNode)
        requires
            left.well_formed(),
            right.well_formed(),
            left.elems().len() + right.elems().len() <= usize::MAX,
            seq_sum(left.elems()) + seq_sum(right.elems()) <= usize::MAX,
        ensures
            c.left == left,
            c.right == right,
            node_wf(c),
    {
        let mut rv = ChildNode {
            left,
            right,
            child_height: 0,
            elem_count: 0,
            agg: 0,
        };
        rv.update_node();
        rv
    }

    fn update_agg(&mut self)
        requires
            old(self).left.well_formed(),
            old(self).right.well_formed(),
            seq_sum(old(self).left.elems()) + seq_sum(old(self).right.elems()) <= usize::MAX,
        ensures
            *final(self) == (ChildNode { agg: final(self).agg, ..*old(self) }),
            final(self).agg == seq_sum(old(self).left.elems()) + seq_sum(old(self).right.elems()),
    {
        proof {
            self.left.lemma_sum_bounds();
            self.right.lemma_sum_bounds();
        }
        self.agg = self.left.get_agg() + self.right.get_agg();
    }

    fn update_height(&mut self)
        requires
            old(self).left.well_formed(),
            old(self).right.well_formed(),
            old(self).left.elems().len() + old(self).right.elems().len() <= usize::MAX,
        ensures
            *final(self) == (ChildNode { child_height: final(self).child_height, ..*old(self) }),
            final(self).child_height == 1 + nat_max(
                old(self).left.height(),
                old(self).right.height(),
            ),
    {
        proof {
            self.left.lemma_height_lt_len();
            self.right.lemma_height_lt_len();
            self.left.lemma_elems_len_pos();
            self.right.lemma_elems_len_pos();
        }
        let lh = self.left.get_height();
        let rh = self.right.get_height();
        let tallest = if lh >= rh {
            lh
        } else {
            rh
        };
        self.child_height = tallest + 1;
    }

    fn update_elem_count(&mut self)
        requires
            old(self).left.well_formed(),
            old(self).right.well_formed(),
            old(self).left.elems().len() + old(self).right.elems().len() <= usize::MAX,
        ensures
            *final(self) == (ChildNode { elem_count: final(self).elem_count, ..*old(self) }),
            final(self).elem_count == old(self).left.elems().len() + old(self).right.elems().len(),
    {
        let left_count = self.left.get_elem_count();
        let right_count = self.right.get_elem_count();
        self.elem_count = left_count + right_count;
    }

    /// Recomputes every cached field; must run after any mutation of
    /// the left or right subtree.
    fn update_node(&mut self)
        requires
            old(self).left.well_formed(),
            old(self).right.well_formed(),
            old(self).left.elems().len() + old(self).right.elems().len() <= usize::MAX,
            seq_sum(old(self).left.elems()) + seq_sum(old(self).right.elems()) <= usize::MAX,
        ensures
            final(self).left == old(self).left,
            final(self).right == old(self).right,
            node_wf(*final(self)),
    {
        self.update_agg();
        self.update_height();
        self.update_elem_count();
    }

    fn get_left_elem_count(&self) -> (n: usize)
        requires
            self.left.well_formed(),
        ensures
            n == self.left.elems().len(),
    {
        self.left.get_elem_count()
    }
}

impl TreeNode {
    /// Facts needed before regrouping the subtrees of `c` and one of
    /// its children: every part's length and sum is bounded by the
    /// whole, so the regrouped nodes stay within `usize`.
    proof fn lemma_rotation_bounds(c: ChildNode)
        requires
            node_wf(c),
        ensures
            c.left.elems().len() + c.right.elems().len() <= usize::MAX,
            seq_sum(c.left.elems()) + seq_sum(c.right.elems()) <= usize::MAX,
            0 <= seq_sum(c.left.elems()),
            0 <= seq_sum(c.right.elems()),
            c.left matches TreeNode::Child(lc) ==> {
                &&& c.left.elems().len() == lc.left.elems().len() + lc.right.elems().len()
                &&& seq_sum(c.left.elems()) == seq_sum(lc.left.elems()) + seq_sum(lc.right.elems())
                &&& 0 <= seq_sum(lc.left.elems())
                &&& 0 <= seq_sum(lc.right.elems())
            },
            c.right matches TreeNode::Child(rc) ==> {
                &&& c.right.elems().len() == rc.left.elems().len() + rc.right.elems().len()
                &&& seq_sum(c.right.elems()) == seq_sum(rc.left.elems()) + seq_sum(rc.right.elems())
                &&& 0 <= seq_sum(rc.left.elems())
                &&& 0 <= seq_sum(rc.right.elems())
            },
    {
        lemma_seq_sum_nonneg(c.left.elems());
        lemma_seq_sum_nonneg(c.right.elems());
        if let TreeNode::Child(lc) = c.left {
            lemma_seq_sum_concat(lc.left.elems(), lc.right.elems());
            lemma_seq_sum_nonneg(lc.left.elems());
            lemma_seq_sum_nonneg(lc.right.elems());
        }
        if let TreeNode::Child(rc) = c.right {
            lemma_seq_sum_concat(rc.left.elems(), rc.right.elems());
            lemma_seq_sum_nonneg(rc.left.elems());
            lemma_seq_sum_nonneg(rc.right.elems());
        }
    }

    /// Single rotation for a left-left imbalance.
    fn balance_ll(old_root: ChildNode) -> (r: TreeNode)
        requires
            node_wf(old_root),
            old_root.left.balanced(),
            old_root.right.balanced(),
            old_root.left.height() == old_root.right.height() + 2,
            old_root.left matches TreeNode::Child(lc) && lc.left.height() >= lc.right.height(),
        ensures
            r.well_formed(),
            r.balanced(),
            r.elems() == node_elems(old_root),
            node_height(old_root) - 1 <= r.height() <= node_height(old_root),
    {
        proof {
            Self::lemma_rotation_bounds(old_root);
        }
        let ChildNode { left, right, .. } = old_root;
        match left {
            TreeNode::Child(lb) => {
                let lc = *lb;
                proof {
                    assert(lc.left.well_formed() && lc.right.well_formed());
                    assert(lc.left.balanced() && lc.right.balanced());
                    lemma_seq_sum_concat(lc.right.elems(), right.elems());
                }
                let new_right = ChildNode::new(lc.right, right);
                let nr = TreeNode::Child(Box::new(new_right));
                proof {
                    assert(nr.balanced());
                    assert(nr.height() == 1 + nat_max(new_right.left.height(), new_right.right.height()));
                }
                let new_root = ChildNode::new(lc.left, nr);
                let r = TreeNode::Child(Box::new(new_root));
                proof {
                    assert(r.elems() =~= node_elems(old_root));
                    assert(r.balanced());
                }
                r
            },
            TreeNode::Leaf(_) => unreached(),
        }
    }

    /// Double rotation for a left-right imbalance.
    fn balance_lr(old_root: ChildNode) -> (r: TreeNode)
        requires
            node_wf(old_root),
            old_root.left.balanced(),
            old_root.right.balanced(),
            old_root.left.height() == old_root.right.height() + 2,
            old_root.left matches TreeNode::Child(lc) && lc.right.height() > lc.left.height(),
        ensures
            r.well_formed(),
            r.balanced(),
            r.elems() == node_elems(old_root),
            node_height(old_root) - 1 <= r.height() <= node_height(old_root),
    {
        proof {
            Self::lemma_rotation_bounds(old_root);
        }
        let ChildNode { left, right, .. } = old_root;
        match left {
            TreeNode::Child(lb) => {
                let lc = *lb;
                proof {
                    assert(lc.left.well_formed() && lc.right.well_formed());
                    assert(lc.left.balanced() && lc.right.balanced());
                    lemma_seq_sum_concat(lc.left.elems(), lc.right.elems());
                    lemma_seq_sum_nonneg(lc.left.elems());
                    lemma_seq_sum_nonneg(lc.right.elems());
                }
                match lc.right {
                    TreeNode::Child(tb) => {
                        let t = *tb;
                        proof {
                            assert(t.left.well_formed() && t.right.well_formed());
                            assert(t.left.balanced() && t.right.balanced());
                            lemma_seq_sum_concat(t.left.elems(), t.right.elems());
                            lemma_seq_sum_nonneg(t.left.elems());
                            lemma_seq_sum_nonneg(t.right.elems());
                            lemma_seq_sum_concat(lc.left.elems(), t.left.elems());
                            lemma_seq_sum_concat(t.right.elems(), right.elems());
                        }
                        let new_left = ChildNode::new(lc.left, t.left);
                        let nl = TreeNode::Child(Box::new(new_left));
                        let new_right = ChildNode::new(t.right, right);
                        let nr = TreeNode::Child(Box::new(new_right));
                        proof {
                            assert(nl.balanced() && nr.balanced());
                        }
                        let new_root = ChildNode::new(nl, nr);
                        let r = TreeNode::Child(Box::new(new_root));
                        proof {
                            assert(r.elems() =~= node_elems(old_root));
                            assert(r.balanced());
                        }
                        r
                    },
                    TreeNode::Leaf(_) => unreached(),
                }
            },
            TreeNode::Leaf(_) => unreached(),
        }
    }

    /// Double rotation for a right-left imbalance.
    fn balance_rl(old_root: ChildNode) -> (r: TreeNode)
        requires
            node_wf(old_root),
            old_root.left.balanced(),
            old_root.right.balanced(),
            old_root.right.height() == old_root.left.height() + 2,
            old_root.right matches TreeNode::Child(rc) && rc.left.height() > rc.right.height(),
        ensures
            r.well_formed(),
            r.balanced(),
            r.elems() == node_elems(old_root),
            node_height(old_root) - 1 <= r.height() <= node_height(old_root),
    {
        proof {
            Self::lemma_rotation_bounds(old_root);
        }
        let ChildNode { left, right, .. } = old_root;
        match right {
            TreeNode::Child(rb) => {
                let rc = *rb;
                proof {
                    assert(rc.left.well_formed() && rc.right.well_formed());
                    assert(rc.left.balanced() && rc.right.balanced());
                    lemma_seq_sum_concat(rc.left.elems(), rc.right.elems());
                    lemma_seq_sum_nonneg(rc.left.elems());
                    lemma_seq_sum_nonneg(rc.right.elems());
                }
                match rc.left {
                    TreeNode::Child(tb) => {
                        let t = *tb;
                        proof {
                            assert(t.left.well_formed() && t.right.well_formed());
                            assert(t.left.balanced() && t.right.balanced());
                            lemma_seq_sum_concat(t.left.elems(), t.right.elems());
                            lemma_seq_sum_nonneg(t.left.elems());
                            lemma_seq_sum_nonneg(t.right.elems());
                            lemma_seq_sum_concat(left.elems(), t.left.elems());
                            lemma_seq_sum_concat(t.right.elems(), rc.right.elems());
                        }
                        let new_left = ChildNode::new(left, t.left);
                        let nl = TreeNode::Child(Box::new(new_left));
                        let new_right = ChildNode::new(t.right, rc.right);
                        let nr = TreeNode::Child(Box::new(new_right));
                        proof {
                            assert(nl.balanced() && nr.balanced());
                        }
                        let new_root = ChildNode::new(nl, nr);
                        let r = TreeNode::Child(Box::new(new_root));
                        proof {
                            assert(r.elems() =~= node_elems(old_root));
                            assert(r.balanced());
                        }
                        r
                    },
                    TreeNode::Leaf(_) => unreached(),
                }
            },
            TreeNode::Leaf(_) => unreached(),
        }
    }

    /// Single rotation for a right-right imbalance.
    fn balance_rr(old_root: ChildNode) -> (r: TreeNode)
        requires
            node_wf(old_root),
            old_root.left.balanced(),
            old_root.right.balanced(),
            old_root.right.height() == old_root.left.height() + 2,
            old_root.right matches TreeNode::Child(rc) && rc.right.height() >= rc.left.height(),
        ensures
            r.well_formed(),
            r.balanced(),
            r.elems() == node_elems(old_root),
            node_height(old_root) - 1 <= r.height() <= node_height(old_root),
    {
        proof {
            Self::lemma_rotation_bounds(old_root);
        }
        let ChildNode { left, right, .. } = old_root;
        match right {
            TreeNode::Child(rb) => {
                let rc = *rb;
                proof {
                    assert(rc.left.well_formed() && rc.right.well_formed());
                    assert(rc.left.balanced() && rc.right.balanced());
                    lemma_seq_sum_concat(left.elems(), rc.left.elems());
                }
                let new_left = ChildNode::new(left, rc.left);
                let nl = TreeNode::Child(Box::new(new_left));
                proof {
                    assert(nl.balanced());
                }
                let new_root = ChildNode::new(nl, rc.right);
                let r = TreeNode::Child(Box::new(new_root));
                proof {
                    assert(r.elems() =~= node_elems(old_root));
                    assert(r.balanced());
                }
                r
            },
            TreeNode::Leaf(_) => unreached(),
        }
    }

    /// Restores the AVL shape at the root after one subtree's height
    /// has changed by at most one.
    fn balance(self) -> (r: TreeNode)
        requires
            self.well_formed(),
            self matches TreeNode::Child(c) ==> {
                &&& c.left.balanced()
                &&& c.right.balanced()
                &&& -2 <= c.left.height() - c.right.height() <= 2
            },
        ensures
            r.well_formed(),
            r.balanced(),
            r.elems() == self.elems(),
            self.height() - 1 <= r.height() <= self.height(),
            self.balanced() ==> r == self,
    {
        let node = match self {
            TreeNode::Child(node) => node,
            TreeNode::Leaf(node) => {
                return TreeNode::Leaf(node);
            },
        };
        proof {
            assert(node.left.well_formed() && node.right.well_formed());
        }
        let left_height = node.left.get_height();
        let right_height = node.right.get_height();
        if left_height <= right_height + 1 && right_height <= left_height + 1 {
            TreeNode::Child(node)
        } else if left_height > right_height {
            match &node.left {
                TreeNode::Child(lnode) => {
                    proof {
                        assert(lnode.left.well_formed() && lnode.right.well_formed());
                    }
                    let ll_height = lnode.left.get_height();
                    let lr_height = lnode.right.get_height();
                    if ll_height >= lr_height {
                        Self::balance_ll(*node)
                    } else {
                        Self::balance_lr(*node)
                    }
                },
                TreeNode::Leaf(_) => unreached(),
            }
        } else {
            match &node.right {
                TreeNode::Child(rnode) => {
                    proof {
                        assert(rnode.left.well_formed() && rnode.right.well_formed());
                    }
                    let rl_height = rnode.left.get_height();
                    let rr_height = rnode.right.get_height();
                    if rl_height > rr_height {
                        Self::balance_rl(*node)
                    } else {
                        Self::balance_rr(*node)
                    }
                },
                TreeNode::Leaf(_) => unreached(),
            }
        }
    }

    /// Sums the values at positions `[start, end)`, returning nothing
    /// when that range misses the tree entirely. A subtree wholly
    /// inside the query is answered from its cached aggregate.
    fn get_range(&self, start: usize, end: usize) -> (r: Option<usize>)
        requires
            self.well_formed(),
        ensures
            (r is Some) == (range_sum(self.elems(), start as int, end as int) is Some),
            r matches Some(v) ==> Some(v as int) == range_sum(
                self.elems(),
                start as int,
                end as int,
            ),
        decreases self,
    {
        match self {
            TreeNode::Leaf(x) => {
                if start > 0 || end < 1 {
                    None
                } else {
                    proof {
                        assert(self.elems().subrange(0, 1) =~= seq![x.val]);
                        lemma_seq_sum_singleton(x.val);
                    }
                    Some(x.val)
                }
            },
            TreeNode::Child(c) => {
                proof {
                    assert(c.left.well_formed() && c.right.well_formed());
                    c.left.lemma_elems_len_pos();
                    c.right.lemma_elems_len_pos();
                    lemma_seq_sum_concat(c.left.elems(), c.right.elems());
                    lemma_range_sum_split(
                        c.left.elems(),
                        c.right.elems(),
                        start as int,
                        end as int,
                    );
                }
                if start == 0 && end >= c.elem_count {
                    proof {
                        assert(self.elems().subrange(0, self.elems().len() as int) =~= self.elems());
                    }
                    return Some(c.agg);
                }
                let mid_idx = c.get_left_elem_count();
                let lhs_end = if mid_idx < end {
                    mid_idx
                } else {
                    end
                };
                let lhs_result = if start < mid_idx {
                    c.left.get_range(start, lhs_end)
                } else {
                    None
                };
                let rhs_start = if start > mid_idx {
                    start - mid_idx
                } else {
                    0
                };
                let rhs_result = if mid_idx < end {
                    c.right.get_range(rhs_start, end - mid_idx)
                } else {
                    None
                };
                proof {
                    lemma_seq_sum_subrange_bound(c.left.elems(), 0, c.left.elems().len() as int);
                    lemma_seq_sum_subrange_bound(c.right.elems(), 0, c.right.elems().len() as int);
                    if lhs_result is Some {
                        let llen = c.left.elems().len() as int;
                        let lhi = if lhs_end < llen { lhs_end as int } else { llen };
                        lemma_seq_sum_subrange_bound(c.left.elems(), start as int, lhi);
                    }
                    if rhs_result is Some {
                        let rlen = c.right.elems().len() as int;
                        let rhi = if end - mid_idx < rlen { end - mid_idx } else { rlen };
                        lemma_seq_sum_subrange_bound(c.right.elems(), rhs_start as int, rhi);
                    }
                }
                match (lhs_result, rhs_result) {
                    (Some(a), Some(b)) => Some(a + b),
                    (Some(a), None) => Some(a),
                    (None, rhs) => rhs,
                }
            },
        }
    }

    /// Inserts `val` so that it ends up at position `idx` of the
    /// in-order sequence; positions past the end append.
    #[verifier::rlimit(60)]
    fn insert(self, idx: usize, val: usize) -> (r: TreeNode)
        requires
            self.well_formed(),
            self.balanced(),
            self.elems().len() + 1 <= usize::MAX,
            seq_sum(self.elems()) + val <= usize::MAX,
        ensures
            r.well_formed(),
            r.balanced(),
            r.elems() == self.elems().insert(
                clamp_idx(idx as int, self.elems().len() as int),
                val,
            ),
            self.height() <= r.height() <= self.height() + 1,
        decreases self,
    {
        let rv = match self {
            TreeNode::Leaf(x) => {
                proof {
                    lemma_seq_sum_singleton(x.val);
                    lemma_seq_sum_singleton(val);
                }
                let tp_node = TreeNode::Leaf(LeafNode::new(val));
                let curr_node = TreeNode::Leaf(x);
                let node = if idx == 0 {
                    ChildNode::new(tp_node, curr_node)
                } else {
                    ChildNode::new(curr_node, tp_node)
                };
                let r = TreeNode::Child(Box::new(node));
                proof {
                    assert(r.elems() =~= curr_node.elems().insert(
                        clamp_idx(idx as int, 1),
                        val,
                    ));
                }
                r
            },
            TreeNode::Child(x) => {
                let c = *x;
                proof {
                    assert(c.left.well_formed() && c.right.well_formed());
                    assert(c.left.balanced() && c.right.balanced());
                    lemma_seq_sum_concat(c.left.elems(), c.right.elems());
                    lemma_seq_sum_nonneg(c.left.elems());
                    lemma_seq_sum_nonneg(c.right.elems());
                }
                let left_nelems = c.left.get_elem_count();
                let node = if idx > left_nelems {
                    let new_right = c.right.insert(idx - left_nelems, val);
                    proof {
                        lemma_seq_sum_insert(
                            c.right.elems(),
                            clamp_idx(idx - left_nelems, c.right.elems().len() as int),
                            val,
                        );
                    }
                    ChildNode::new(c.left, new_right)
                } else {
                    let new_left = c.left.insert(idx, val);
                    proof {
                        lemma_seq_sum_insert(
                            c.left.elems(),
                            clamp_idx(idx as int, c.left.elems().len() as int),
                            val,
                        );
                    }
                    ChildNode::new(new_left, c.right)
                };
                let r = TreeNode::Child(Box::new(node));
                proof {
                    assert(r.elems() =~= (c.left.elems() + c.right.elems()).insert(
                        clamp_idx(idx as int, c.elem_count as int),
                        val,
                    ));
                }
                r
            },
        };
        rv.balance()
    }

    /// Replaces the value at `idx`; out-of-range positions leave the
    /// tree untouched and report the failure.
    fn update(&mut self, idx: usize, val: usize) -> (res: Result<(), AggAvlTreeError>)
        requires
            old(self).well_formed(),
            old(self).balanced(),
            idx < old(self).elems().len() ==> seq_sum(old(self).elems()) - old(self).elems()[
                idx as int
            ] + val <= usize::MAX,
        ensures
            final(self).well_formed(),
            final(self).balanced(),
            final(self).height() == old(self).height(),
            idx < old(self).elems().len() ==> (res is Ok && final(self).elems() == old(
                self,
            ).elems().update(idx as int, val)),
            idx >= old(self).elems().len() ==> (res is Err && *final(self) == *old(self)),
        decreases *old(self),
    {
        match self {
            TreeNode::Child(x) => {
                proof {
                    assert(x.left.well_formed() && x.right.well_formed());
                    assert(x.left.balanced() && x.right.balanced());
                    lemma_seq_sum_concat(x.left.elems(), x.right.elems());
                    lemma_seq_sum_nonneg(x.left.elems());
                    lemma_seq_sum_nonneg(x.right.elems());
                }
                let mid_idx = x.get_left_elem_count();
                let rv = if idx < mid_idx {
                    proof {
                        if idx < x.left.elems().len() {
                            lemma_seq_sum_update(x.left.elems(), idx as int, val);
                        }
                    }
                    (&mut x.left).update(idx, val)
                } else {
                    proof {
                        if idx - mid_idx < x.right.elems().len() {
                            lemma_seq_sum_update(x.right.elems(), idx - mid_idx, val);
                        }
                    }
                    (&mut x.right).update(idx - mid_idx, val)
                };
                if rv.is_ok() {
                    x.update_agg();
                }
                proof {
                    if idx < old(self).elems().len() {
                        assert(self.elems() =~= old(self).elems().update(idx as int, val));
                    }
                }
                rv
            },
            TreeNode::Leaf(x) => {
                if idx == 0 {
                    proof {
                        lemma_seq_sum_singleton(x.val);
                        lemma_seq_sum_singleton(val);
                    }
                    x.val = val;
                    proof {
                        assert(self.elems() =~= old(self).elems().update(0, val));
                    }
                    Ok(())
                } else {
                    Err(AggAvlTreeError::IndexOutOfBounds)
                }
            },
        }
    }

    /// Removes the value at `idx`, which must be in range; yields the
    /// remaining tree, or nothing when the last value goes.
    #[verifier::rlimit(60)]
    fn delete(self, idx: usize) -> (r: Option<TreeNode>)
        requires
            self.well_formed(),
            self.balanced(),
            idx < self.elems().len(),
        ensures
            self.elems().len() == 1 ==> r is None,
            self.elems().len() > 1 ==> (r matches Some(t) && t.well_formed() && t.balanced()
                && t.elems() == self.elems().remove(idx as int) && self.height() - 1 <= t.height()
                <= self.height()),
        decreases self,
    {
        match self {
            TreeNode::Child(x) => {
                let c = *x;
                proof {
                    assert(c.left.well_formed() && c.right.well_formed());
                    assert(c.left.balanced() && c.right.balanced());
                    lemma_seq_sum_concat(c.left.elems(), c.right.elems());
                    lemma_seq_sum_nonneg(c.left.elems());
                    lemma_seq_sum_nonneg(c.right.elems());
                    c.left.lemma_elems_len_pos();
                    c.right.lemma_elems_len_pos();
                }
                let mid_idx = c.left.get_elem_count();
                let rv = if idx < mid_idx {
                    proof {
                        lemma_seq_sum_remove(c.left.elems(), idx as int);
                    }
                    match c.left.delete(idx) {
                        Some(y) => TreeNode::Child(Box::new(ChildNode::new(y, c.right))),
                        None => c.right,
                    }
                } else {
                    proof {
                        lemma_seq_sum_remove(c.right.elems(), idx - mid_idx);
                    }
                    match c.right.delete(idx - mid_idx) {
                        Some(y) => TreeNode::Child(Box::new(ChildNode::new(c.left, y))),
                        None => c.left,
                    }
                };
                proof {
                    assert(rv.elems() =~= (c.left.elems() + c.right.elems()).remove(idx as int));
                    c.left.lemma_height_lt_len();
                    c.right.lemma_height_lt_len();
                    // A rotation only lowers the height when the node is
                    // out of balance, and then the removal cannot have
                    // lowered it already.
                    if !rv.balanced() {
                        assert(rv.height() == 1 + nat_max(c.left.height(), c.right.height()));
                    }
                }
                Some(rv.balance())
            },
            TreeNode::Leaf(_) => {
                if idx == 0 {
                    None
                } else {
                    unreached()
                }
            },
        }
    }
}

/// Order-statistic tree over `usize` values with a sum aggregate,
/// supporting O(log n) positional insert, update, delete and
/// range-sum queries.
pub struct AggAvlTree {
    root: Option<TreeNode>,
}

impl View for AggAvlTree {
    type V = Seq<usize>;

    /// The stored values, in positional order.
    closed spec fn view(&self) -> Seq<usize> {
        match self.root {
            None => Seq::empty(),
            Some(t) => t.elems(),
        }
    }
}

impl AggAvlTree {
    /// Structural invariant: every cached count, height and aggregate
    /// agrees with its subtree, and at every internal node the heights
    /// of the two subtrees differ by at most one (the AVL bound).
    pub closed spec fn wf(self) -> bool {
        match self.root {
            None => true,
            Some(t) => t.well_formed() && t.balanced(),
        }
    }

    pub fn new() -> (t: Self)
        ensures
            t.wf(),
            t@ == Seq::<usize>::empty(),
    {
        AggAvlTree { root: None }
    }

    /// Builds a tree holding exactly the values of `elems`, in order.
    pub fn from_vec(elems: Vec<usize>) -> (t: Self)
        requires
            seq_sum(elems@) <= usize::MAX,
        ensures
            t.wf(),
            t@ == elems@,
    {
        let mut rv = Self::new();
        let n = elems.len();
        let mut i: usize = 0;
        while i < n
            invariant
                i <= n,
                n == elems@.len(),
                seq_sum(elems@) <= usize::MAX,
                rv.wf(),
                rv@ == elems@.subrange(0, i as int),
            decreases n - i,
        {
            proof {
                lemma_seq_sum_subrange_bound(elems@, 0, i + 1);
                lemma_seq_sum_subrange_split(elems@, 0, i as int, i + 1);
                assert(elems@.subrange(i as int, i + 1) =~= seq![elems@[i as int]]);
                lemma_seq_sum_singleton(elems@[i as int]);
            }
            rv.insert_back(elems[i]);
            proof {
                assert(rv@ =~= elems@.subrange(0, i + 1));
            }
            i = i + 1;
        }
        proof {
            assert(elems@.subrange(0, n as int) =~= elems@);
        }
        rv
    }

    /// The value stored at `idx`, when in range.
    pub fn get(&self, idx: usize) -> (r: Option<usize>)
        requires
            self.wf(),
        ensures
            idx < self@.len() ==> r == Some(self@[idx as int]),
            idx >= self@.len() ==> r is None,
    {
        let n = self.len();
        if idx >= n {
            None
        } else {
            proof {
                assert(self@.subrange(idx as int, idx + 1) =~= seq![self@[idx as int]]);
                lemma_seq_sum_singleton(self@[idx as int]);
            }
            self.get_range(idx, idx + 1)
        }
    }

    /// Sum over the positions in `[start, end)`; nothing when that
    /// range does not overlap the stored positions.
    pub fn get_range(&self, start: usize, end: usize) -> (r: Option<usize>)
        requires
            self.wf(),
        ensures
            (r is Some) == (range_sum(self@, start as int, end as int) is Some),
            r matches Some(v) ==> Some(v as int) == range_sum(self@, start as int, end as int),
    {
        match &self.root {
            Some(root) => root.get_range(start, end),
            None => None,
        }
    }

    /// Inserts `val` at position `idx`; an index past the end appends.
    pub fn insert(&mut self, idx: usize, val: usize)
        requires
            old(self).wf(),
            old(self)@.len() < usize::MAX,
            seq_sum(old(self)@) + val <= usize::MAX,
        ensures
            final(self).wf(),
            final(self)@ == old(self)@.insert(
                clamp_idx(idx as int, old(self)@.len() as int),
                val,
            ),
    {
        match self.root.take() {
            Some(root) => {
                self.root = Some(root.insert(idx, val));
            },
            None => {
                self.root = Some(TreeNode::Leaf(LeafNode::new(val)));
                proof {
                    assert(self@ =~= Seq::<usize>::empty().insert(0, val));
                }
            },
        }
    }

    pub fn insert_back(&mut self, val: usize)
        requires
            old(self).wf(),
            old(self)@.len() < usize::MAX,
            seq_sum(old(self)@) + val <= usize::MAX,
        ensures
            final(self).wf(),
            final(self)@ == old(self)@.push(val),
    {
        let idx = match &self.root {
            None => 0,
            Some(x) => x.get_elem_count(),
        };
        self.insert(idx + 1, val);
        proof {
            assert(self@ =~= old(self)@.push(val));
        }
    }

    pub fn insert_front(&mut self, val: usize)
        requires
            old(self).wf(),
            old(self)@.len() < usize::MAX,
            seq_sum(old(self)@) + val <= usize::MAX,
        ensures
            final(self).wf(),
            final(self)@ == old(self)@.insert(0, val),
    {
        self.insert(0, val);
    }

    /// Replaces the value at `idx`; fails without effect when `idx`
    /// is out of range.
    pub fn update(&mut self, idx: usize, val: usize) -> (res: Result<(), AggAvlTreeError>)
        requires
            old(self).wf(),
            idx < old(self)@.len() ==> seq_sum(old(self)@) - old(self)@[idx as int] + val
                <= usize::MAX,
        ensures
            final(self).wf(),
            idx < old(self)@.len() ==> (res is Ok && final(self)@ == old(self)@.update(
                idx as int,
                val,
            )),
            idx >= old(self)@.len() ==> (res is Err && *final(self) == *old(self)),
    {
        match &mut self.root {
            Some(x) => x.update(idx, val),
            None => Err(AggAvlTreeError::IndexOutOfBounds),
        }
    }

    /// Removes the value at `idx`; fails without effect when `idx`
    /// is out of range.
    pub fn delete(&mut self, idx: usize) -> (res: Result<(), AggAvlTreeError>)
        requires
            old(self).wf(),
        ensures
            final(self).wf(),
            idx < old(self)@.len() ==> (res is Ok && final(self)@ == old(self)@.remove(idx as int)),
            idx >= old(self)@.len() ==> (res is Err && *final(self) == *old(self)),
    {
        let in_bounds = match &self.root {
            Some(x) => idx < x.get_elem_count(),
            None => false,
        };
        if in_bounds {
            match self.root.take() {
                Some(x) => {
                    proof {
                        x.lemma_elems_len_pos();
                    }
                    self.root = x.delete(idx);
                    proof {
                        if old(self)@.len() == 1 {
                            assert(self@ =~= old(self)@.remove(idx as int));
                        }
                    }
                },
                None => {},
            }
            Ok(())
        } else {
            Err(AggAvlTreeError::IndexOutOfBounds)
        }
    }

    pub fn is_empty(&self) -> (r: bool)
        ensures
            r == (self@.len() == 0),
    {
        proof {
            if let Some(t) = &self.root {
                t.lemma_elems_len_pos();
            }
        }
        self.root.is_none()
    }

    pub fn len(&self) -> (n: usize)
        requires
            self.wf(),
        ensures
            n == self@.len(),
    {
        match &self.root {
            None => 0,
            Some(x) => x.get_elem_count(),
        }
    }
}

} // verus!
