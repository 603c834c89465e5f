//! Rope: a binary tree of small chunks supporting O(log n) insert
//! and delete over an ordered sequence of elements.
//!
//! After each mutation the path from the root to the touched position
//! is rewritten with the standard splay rotations (zig, zig-zig,
//! zig-zag), so that bursts of edits near one position stay cheap.
//! The in-order element sequence is the abstract state; every
//! operation is specified against it.

use crate::error::RopeError;
use vstd::prelude::*;

verus! {

/// A leaf holds at most this many elements; inserts split bigger
/// chunks and small neighbours are merged back together.
pub const LEAF_SIZE: usize = 64;

enum Lr<T> {
    Left(T),
    Right(T),
}

impl<T> Lr<T> {
    fn new(val: T, is_left: bool) -> (r: Lr<T>)
        ensures
            is_left ==> r == Lr::Left(val),
            !is_left ==> r == Lr::Right(val),
    {
        if is_left {
            Lr::Left(val)
        } else {
            Lr::Right(val)
        }
    }
}

enum RopeNode<T> {
    Leaf(Vec<T>),
    Parent(Box<RopeParent<T>>),
}

struct RopeParent<T> {
    left: RopeNode<T>,
    right: RopeNode<T>,
    elem_count: usize,
}

/// In-order contents of an internal node.
spec fn parent_elems<T>(p: RopeParent<T>) -> Seq<T> {
    p.left.elems() + p.right.elems()
}

/// Cached count of an internal node agrees with its subtrees.
spec fn parent_wf<T>(p: RopeParent<T>) -> bool {
    &&& p.left.well_formed()
    &&& p.right.well_formed()
    &&& p.elem_count == p.left.elems().len() + p.right.elems().len()
}

/// A subtree being splayed one level up: the sibling it leaves
/// behind, and the node to raise, tagged with the side it came from.
struct L2Val<T> {
    sibling: RopeNode<T>,
    target: Lr<Box<RopeParent<T>>>,
}

impl<T> L2Val<T> {
    fn new(sibling: RopeNode<T>, target: Lr<Box<RopeParent<T>>>) -> (r: L2Val<T>)
        ensures
            r.sibling == sibling,
            r.target == target,
    {
        L2Val { sibling, target }
    }
}

/// Result of a recursive mutation: a parent node one rotation away
/// from the root of its subtree, a node two levels down awaiting a
/// zig-zig or zig-zag, or a plain chunk.
enum SplayRet<T> {
    L1(Box<RopeParent<T>>),
    L2(L2Val<T>),
    Leaf(Vec<T>),
}

/// In-order contents once the pending zig rotation is applied.
spec fn zig_elems<T>(sibling: RopeNode<T>, target: Lr<Box<RopeParent<T>>>) -> Seq<T> {
    match target {
        Lr::Left(t) => parent_elems(*t) + sibling.elems(),
        Lr::Right(t) => sibling.elems() + parent_elems(*t),
    }
}

spec fn target_wf<T>(target: Lr<Box<RopeParent<T>>>) -> bool {
    match target {
        Lr::Left(t) => parent_wf(*t),
        Lr::Right(t) => parent_wf(*t),
    }
}

impl<T> SplayRet<T> {
    spec fn elems(self) -> Seq<T> {
        match self {
            SplayRet::L1(p) => parent_elems(*p),
            SplayRet::L2(v) => zig_elems(v.sibling, v.target),
            SplayRet::Leaf(v) => v@,
        }
    }

    spec fn well_formed(self) -> bool {
        match self {
            SplayRet::L1(p) => parent_wf(*p),
            SplayRet::L2(v) => v.sibling.well_formed() && target_wf(v.target),
            SplayRet::Leaf(_) => true,
        }
    }
}

impl<T> RopeNode<T> {
    /// The in-order sequence of stored elements.
    spec fn elems(self) -> Seq<T>
        decreases self,
    {
        match self {
            RopeNode::Leaf(v) => v@,
            RopeNode::Parent(p) => p.left.elems() + p.right.elems(),
        }
    }

    /// Every cached element count agrees with its subtree.
    spec fn well_formed(self) -> bool
        decreases self,
    {
        match self {
            RopeNode::Leaf(_) => true,
            RopeNode::Parent(p) => {
                &&& p.left.well_formed()
                &&& p.right.well_formed()
                &&& p.elem_count == p.left.elems().len() + p.right.elems().len()
            },
        }
    }

    fn elem_count(&self) -> (n: usize)
        requires
            self.well_formed(),
        ensures
            n == self.elems().len(),
    {
        match self {
            RopeNode::Parent(x) => x.elem_count,
            RopeNode::Leaf(x) => x.len(),
        }
    }

    /// Wraps a chunk as a tree, splitting it into halves while it
    /// exceeds the leaf capacity.
    fn new(val: Vec<T>) -> (r: RopeNode<T>)
        ensures
            r.well_formed(),
            r.elems() == val@,
        decreases val@.len(),
    {
        if val.len() > LEAF_SIZE {
            let ghost whole = val@;
            let mut val = val;
            let mid_idx = val.len() / 2;
            let rhs = val.split_off(mid_idx);
            let rhs_node = RopeNode::new(rhs);
            let lhs_node = RopeNode::new(val);
            let r = RopeNode::Parent(Box::new(RopeParent::new(lhs_node, rhs_node)));
            proof {
                assert(r.elems() =~= whole);
            }
            r
        } else {
            RopeNode::Leaf(val)
        }
    }

    /// Joins two subtrees in order, merging them into a single leaf
    /// when the result is small.
    fn from_nodes(lhs: RopeNode<T>, rhs: RopeNode<T>) -> (r: RopeNode<T>)
        requires
            lhs.well_formed(),
            rhs.well_formed(),
            lhs.elems().len() + rhs.elems().len() <= usize::MAX,
        ensures
            r.well_formed(),
            r.elems() == lhs.elems() + rhs.elems(),
    {
        let lhs_count = lhs.elem_count();
        let rhs_count = rhs.elem_count();
        if lhs_count + rhs_count < LEAF_SIZE {
            let mut val = lhs.drain();
            let mut tp = rhs.drain();
            val.append(&mut tp);
            RopeNode::Leaf(val)
        } else {
            RopeNode::Parent(Box::new(RopeParent::new(lhs, rhs)))
        }
    }

    /// Flattens a subtree back into one chunk.
    fn drain(self) -> (v: Vec<T>)
        requires
            self.well_formed(),
        ensures
            v@ == self.elems(),
        decreases self,
    {
        match self {
            RopeNode::Leaf(x) => x,
            RopeNode::Parent(x) => {
                let p = *x;
                let mut rv = p.left.drain();
                let mut rhs = p.right.drain();
                rv.append(&mut rhs);
                rv
            },
        }
    }
}

/// In-order contents once the pending zig-zig or zig-zag rotation
/// around the grandparent is applied. `parent` carries the sibling
/// that the raised node leaves at its parent, tagged with the side
/// the parent occupied in the grandparent.
spec fn splay_elems<T>(
    g_sibling: RopeNode<T>,
    parent: Lr<RopeNode<T>>,
    target: Lr<Box<RopeParent<T>>>,
) -> Seq<T> {
    match parent {
        Lr::Left(p_sib) => zig_elems(p_sib, target) + g_sibling.elems(),
        Lr::Right(p_sib) => g_sibling.elems() + zig_elems(p_sib, target),
    }
}

spec fn parent_sib_wf<T>(parent: Lr<RopeNode<T>>) -> bool {
    match parent {
        Lr::Left(p_sib) => p_sib.well_formed(),
        Lr::Right(p_sib) => p_sib.well_formed(),
    }
}

impl<T> RopeNode<T> {
    /// Repackages a finished subtree as a mutation result.
    fn to_splay(self) -> (r: SplayRet<T>)
        requires
            self.well_formed(),
        ensures
            r.well_formed(),
            r.elems() == self.elems(),
    {
        match self {
            RopeNode::Parent(x) => SplayRet::L1(x),
            RopeNode::Leaf(x) => SplayRet::Leaf(x),
        }
    }

    /// Single rotation raising `target` over the node whose other
    /// child was `sibling`.
    fn zig_splay(sibling: RopeNode<T>, target: Lr<Box<RopeParent<T>>>) -> (r: RopeNode<T>)
        requires
            sibling.well_formed(),
            target_wf(target),
            zig_elems(sibling, target).len() <= usize::MAX,
        ensures
            r.well_formed(),
            r.elems() == zig_elems(sibling, target),
    {
        match target {
            Lr::Left(tb) => {
                let t = *tb;
                let new_parent = RopeNode::from_nodes(t.right, sibling);
                let r = RopeNode::from_nodes(t.left, new_parent);
                proof {
                    assert(r.elems() =~= zig_elems(sibling, Lr::Left(tb)));
                }
                r
            },
            Lr::Right(tb) => {
                let t = *tb;
                let new_parent = RopeNode::from_nodes(sibling, t.left);
                let r = RopeNode::from_nodes(new_parent, t.right);
                proof {
                    assert(r.elems() =~= zig_elems(sibling, Lr::Right(tb)));
                }
                r
            },
        }
    }

    /// Applies any rotation still pending in a mutation result.
    fn splay_ret_into(ret: SplayRet<T>) -> (r: RopeNode<T>)
        requires
            ret.well_formed(),
            ret.elems().len() <= usize::MAX,
        ensures
            r.well_formed(),
            r.elems() == ret.elems(),
    {
        match ret {
            SplayRet::L1(x) => RopeNode::Parent(x),
            SplayRet::L2(L2Val { sibling, target }) => RopeNode::zig_splay(sibling, target),
            SplayRet::Leaf(x) => RopeNode::Leaf(x),
        }
    }

    /// Double rotation (zig-zig or zig-zag) raising `target` two
    /// levels, past its parent and grandparent.
    fn splay(
        g_sibling: RopeNode<T>,
        parent: Lr<RopeNode<T>>,
        target: Lr<Box<RopeParent<T>>>,
    ) -> (r: RopeNode<T>)
        requires
            g_sibling.well_formed(),
            parent_sib_wf(parent),
            target_wf(target),
            splay_elems(g_sibling, parent, target).len() <= usize::MAX,
        ensures
            r.well_formed(),
            r.elems() == splay_elems(g_sibling, parent, target),
    {
        match parent {
            Lr::Left(p_sib) => match target {
                Lr::Left(tb) => {
                    let t = *tb;
                    let new_grandparent = RopeNode::from_nodes(p_sib, g_sibling);
                    let new_parent = RopeNode::from_nodes(t.right, new_grandparent);
                    let r = RopeNode::from_nodes(t.left, new_parent);
                    proof {
                        assert(r.elems() =~= splay_elems(g_sibling, Lr::Left(p_sib), Lr::Left(tb)));
                    }
                    r
                },
                Lr::Right(tb) => {
                    let t = *tb;
                    let new_grandparent = RopeNode::from_nodes(t.right, g_sibling);
                    let new_parent = RopeNode::from_nodes(p_sib, t.left);
                    let r = RopeNode::from_nodes(new_parent, new_grandparent);
                    proof {
                        assert(r.elems() =~= splay_elems(
                            g_sibling,
                            Lr::Left(p_sib),
                            Lr::Right(tb),
                        ));
                    }
                    r
                },
            },
            Lr::Right(p_sib) => match target {
                Lr::Left(tb) => {
                    let t = *tb;
                    let new_grandparent = RopeNode::from_nodes(g_sibling, t.left);
                    let new_parent = RopeNode::from_nodes(t.right, p_sib);
                    let r = RopeNode::from_nodes(new_grandparent, new_parent);
                    proof {
                        assert(r.elems() =~= splay_elems(
                            g_sibling,
                            Lr::Right(p_sib),
                            Lr::Left(tb),
                        ));
                    }
                    r
                },
                Lr::Right(tb) => {
                    let t = *tb;
                    let new_grandparent = RopeNode::from_nodes(g_sibling, p_sib);
                    let new_parent = RopeNode::from_nodes(new_grandparent, t.left);
                    let r = RopeNode::from_nodes(new_parent, t.right);
                    proof {
                        assert(r.elems() =~= splay_elems(
                            g_sibling,
                            Lr::Right(p_sib),
                            Lr::Right(tb),
                        ));
                    }
                    r
                },
            },
        }
    }

    /// Splices `val` in so that its first element lands at position
    /// `idx`, splaying the touched path towards the root.
    #[verifier::spinoff_prover]
    #[verifier::rlimit(100)]
    fn insert(self, val: Vec<T>, idx: usize) -> (r: SplayRet<T>)
        requires
            self.well_formed(),
            idx <= self.elems().len(),
            self.elems().len() + val@.len() <= usize::MAX,
        ensures
            r.well_formed(),
            r.elems() == self.elems().take(idx as int) + val@ + self.elems().skip(idx as int),
        decreases self,
    {
        let ghost whole = self.elems();
        let ghost ins = val@;
        match self {
            RopeNode::Leaf(x) => {
                let ghost orig = x@;
                let mut x = x;
                let mut val = val;
                let mut rhs = x.split_off(idx);
                x.append(&mut val);
                x.append(&mut rhs);
                let r = RopeNode::new(x).to_splay();
                proof {
                    assert(r.elems() =~= orig.take(idx as int) + ins + orig.skip(idx as int));
                }
                r
            },
            RopeNode::Parent(pb) => {
                let p = *pb;
                proof {
                    assert(p.left.well_formed() && p.right.well_formed());
                }
                let ghost l0 = p.left.elems();
                let ghost r0 = p.right.elems();
                let mid_idx = p.get_left_elem_count();
                let RopeParent { left, right, .. } = p;
                let (is_left, sibling, ret_val) = if idx < mid_idx {
                    let rv = left.insert(val, idx);
                    (true, right, rv)
                } else {
                    let rv = right.insert(val, idx - mid_idx);
                    (false, left, rv)
                };
                proof {
                    if is_left {
                        assert(ret_val.elems() == l0.take(idx as int) + ins + l0.skip(idx as int));
                        assert(ret_val.elems() + r0 =~= whole.take(idx as int) + ins + whole.skip(
                            idx as int,
                        ));
                    } else {
                        assert(ret_val.elems() == r0.take(idx - mid_idx as int) + ins + r0.skip(
                            idx - mid_idx as int,
                        ));
                        assert(l0 + ret_val.elems() =~= whole.take(idx as int) + ins + whole.skip(
                            idx as int,
                        ));
                    }
                }
                match ret_val {
                    SplayRet::L1(x) => SplayRet::L2(L2Val::new(sibling, Lr::new(x, is_left))),
                    SplayRet::L2(L2Val { sibling: inner_sib, target }) => {
                        let node = RopeNode::splay(sibling, Lr::new(inner_sib, is_left), target);
                        node.to_splay()
                    },
                    SplayRet::Leaf(x) => {
                        let node = if is_left {
                            RopeNode::from_nodes(RopeNode::new(x), sibling)
                        } else {
                            RopeNode::from_nodes(sibling, RopeNode::new(x))
                        };
                        node.to_splay()
                    },
                }
            },
        }
    }
}

/// What is left of `s` after removing the positions in
/// `[start, end)`, both bounds clamped to the length.
pub open spec fn remove_range<T>(s: Seq<T>, start: int, end: int) -> Seq<T> {
    let hi = if end < s.len() {
        end
    } else {
        s.len() as int
    };
    let lo = if start < hi {
        start
    } else {
        hi
    };
    s.take(lo) + s.skip(hi)
}

impl<T> RopeNode<T> {
    /// Removes the elements at positions `[start, end)`, clamped to
    /// the subtree; yields nothing when everything goes.
    #[verifier::rlimit(60)]
    fn delete(self, start: usize, end: usize) -> (r: Option<RopeNode<T>>)
        requires
            self.well_formed(),
            start <= end,
        ensures
            r matches Some(t) ==> (t.well_formed() && t.elems() == remove_range(
                self.elems(),
                start as int,
                end as int,
            )),
            r is None ==> remove_range(self.elems(), start as int, end as int).len() == 0,
        decreases self,
    {
        let ghost whole = self.elems();
        match self {
            RopeNode::Leaf(x) => {
                let mut val = x;
                let len = val.len();
                let hi = if end < len {
                    end
                } else {
                    len
                };
                let lo = if start < hi {
                    start
                } else {
                    hi
                };
                let mut tail = val.split_off(hi);
                val.truncate(lo);
                val.append(&mut tail);
                proof {
                    assert(val@ =~= remove_range(whole, start as int, end as int));
                }
                if val.is_empty() {
                    None
                } else {
                    Some(RopeNode::new(val))
                }
            },
            RopeNode::Parent(pb) => {
                let p = *pb;
                proof {
                    assert(p.left.well_formed() && p.right.well_formed());
                }
                let ghost l0 = p.left.elems();
                let ghost r0 = p.right.elems();
                let mid_idx = p.get_left_elem_count();
                let RopeParent { left, right, .. } = p;
                let lhs = if start < mid_idx {
                    let end_bound = if mid_idx < end {
                        mid_idx
                    } else {
                        end
                    };
                    left.delete(start, end_bound)
                } else {
                    Some(left)
                };
                let rhs = if end > mid_idx {
                    let start_bound = if start > mid_idx {
                        start - mid_idx
                    } else {
                        0
                    };
                    right.delete(start_bound, end - mid_idx)
                } else {
                    Some(right)
                };
                let ghost lpiece = if start < mid_idx as int {
                    remove_range(
                        l0,
                        start as int,
                        if (mid_idx as int) < end { mid_idx as int } else { end as int },
                    )
                } else {
                    l0
                };
                let ghost rpiece = if end > mid_idx as int {
                    remove_range(
                        r0,
                        if start > mid_idx as int { start - mid_idx } else { 0 },
                        end - mid_idx,
                    )
                } else {
                    r0
                };
                proof {
                    assert(lpiece + rpiece =~= remove_range(whole, start as int, end as int));
                    assert(lhs matches Some(a) ==> a.elems() == lpiece);
                    if lhs is None {
                        assert(lpiece =~= Seq::<T>::empty());
                        assert(lpiece + rpiece =~= rpiece);
                    }
                    assert(rhs matches Some(b) ==> b.elems() == rpiece);
                    if rhs is None {
                        assert(rpiece =~= Seq::<T>::empty());
                        assert(lpiece + rpiece =~= lpiece);
                    }
                }
                match (lhs, rhs) {
                    (None, rhs_node) => rhs_node,
                    (lhs_node, None) => lhs_node,
                    (Some(lhs_node), Some(rhs_node)) => Some(
                        RopeNode::from_nodes(lhs_node, rhs_node),
                    ),
                }
            },
        }
    }
}

impl<T> RopeParent<T> {
    fn new(lhs: RopeNode<T>, rhs: RopeNode<T>) -> (r: RopeParent<T>)
        requires
            lhs.well_formed(),
            rhs.well_formed(),
            lhs.elems().len() + rhs.elems().len() <= usize::MAX,
        ensures
            r.left == lhs,
            r.right == rhs,
            parent_wf(r),
    {
        let mut rv = RopeParent {
            left: lhs,
            right: rhs,
            elem_count: 0,
        };
        rv.update_node();
        rv
    }

    fn get_left_elem_count(&self) -> (n: usize)
        requires
            self.left.well_formed(),
        ensures
            n == self.left.elems().len(),
    {
        self.left.elem_count()
    }

    fn update_elem_count(&mut self)
        requires
            old(self).left.well_formed(),
            old(self).right.well_formed(),
            old(self).left.elems().len() + old(self).right.elems().len() <= usize::MAX,
        ensures
            *final(self) == (RopeParent { elem_count: final(self).elem_count, ..*old(self) }),
            final(self).elem_count == old(self).left.elems().len() + old(
                self,
            ).right.elems().len(),
    {
        let left_count = self.left.elem_count();
        let right_count = self.right.elem_count();
        self.elem_count = left_count + right_count;
    }

    /// Recomputes the cached element count; must run after any
    /// mutation of the left or right subtree.
    fn update_node(&mut self)
        requires
            old(self).left.well_formed(),
            old(self).right.well_formed(),
            old(self).left.elems().len() + old(self).right.elems().len() <= usize::MAX,
        ensures
            final(self).left == old(self).left,
            final(self).right == old(self).right,
            parent_wf(*final(self)),
    {
        self.update_elem_count();
    }
}

impl<T> RopeNode<T> {
    /// Appends a copy of the subtree's elements, in order, to `out`.
    fn push_range_to(&self, out: &mut Vec<T>)
        where
            T: Copy,
        requires
            self.well_formed(),
        ensures
            final(out)@ == old(out)@ + self.elems(),
        decreases self,
    {
        match self {
            RopeNode::Leaf(v) => {
                let n = v.len();
                let mut i: usize = 0;
                while i < n
                    invariant
                        i <= n,
                        n == v@.len(),
                        out@ == old(out)@ + v@.subrange(0, i as int),
                    decreases n - i,
                {
                    out.push(v[i]);
                    proof {
                        assert(old(out)@ + v@.subrange(0, i as int) + seq![v@[i as int]] =~= old(
                            out,
                        )@ + v@.subrange(0, i + 1));
                    }
                    i = i + 1;
                }
                proof {
                    assert(v@.subrange(0, n as int) =~= v@);
                }
            },
            RopeNode::Parent(p) => {
                proof {
                    assert(p.left.well_formed() && p.right.well_formed());
                }
                p.left.push_range_to(out);
                p.right.push_range_to(out);
                proof {
                    assert(old(out)@ + p.left.elems() + p.right.elems() =~= old(out)@
                        + self.elems());
                }
            },
        }
    }
}

/// Rope over elements of type `T`: O(log n) insert and delete of
/// contiguous runs, addressed by absolute position.
pub struct Rope<T> {
    root: Option<RopeNode<T>>,
}

impl<T> View for Rope<T> {
    type V = Seq<T>;

    /// The stored elements, in order.
    closed spec fn view(&self) -> Seq<T> {
        match self.root {
            None => Seq::empty(),
            Some(n) => n.elems(),
        }
    }
}

impl<T> Rope<T> {
    /// Structural invariant: every cached element count agrees with
    /// its subtree.
    pub closed spec fn wf(self) -> bool {
        match self.root {
            None => true,
            Some(n) => n.well_formed(),
        }
    }

    pub fn new() -> (r: Self)
        ensures
            r.wf(),
            r@ == Seq::<T>::empty(),
    {
        Rope { root: None }
    }

    /// Builds a rope holding exactly the elements of `document`.
    pub fn from_document(document: Vec<T>) -> (r: Self)
        ensures
            r.wf(),
            r@ == document@,
    {
        let root = Some(RopeNode::new(document));
        Rope { root }
    }

    pub fn len(&self) -> (n: usize)
        requires
            self.wf(),
        ensures
            n == self@.len(),
    {
        match &self.root {
            Some(x) => x.elem_count(),
            None => 0,
        }
    }

    /// Whether the rope holds no elements.
    pub fn is_empty(&self) -> (r: bool)
        requires
            self.wf(),
        ensures
            r == (self@.len() == 0),
    {
        match &self.root {
            None => true,
            Some(x) => x.elem_count() == 0,
        }
    }

    /// Splices `string` in at position `idx`; a position past the end
    /// is refused and leaves the rope unchanged.
    pub fn insert(&mut self, string: Vec<T>, idx: usize) -> (res: Result<(), RopeError>)
        requires
            old(self).wf(),
            old(self)@.len() + string@.len() <= usize::MAX,
        ensures
            final(self).wf(),
            idx <= old(self)@.len() ==> (res is Ok && final(self)@ == old(self)@.take(idx as int)
                + string@ + old(self)@.skip(idx as int)),
            idx > old(self)@.len() ==> (res is Err && *final(self) == *old(self)),
    {
        let len = self.len();
        if idx > len {
            return Err(RopeError::IndexOutOfBounds);
        }
        match self.root.take() {
            None => {
                self.root = Some(RopeNode::new(string));
                proof {
                    assert(self@ =~= old(self)@.take(idx as int) + string@ + old(self)@.skip(
                        idx as int,
                    ));
                }
            },
            Some(x) => {
                let ret = x.insert(string, idx);
                self.root = Some(RopeNode::splay_ret_into(ret));
            },
        }
        Ok(())
    }

    /// Removes the elements at positions `[start, end)`; both bounds
    /// are clamped to the length.
    pub fn delete(&mut self, start: usize, end: usize)
        requires
            old(self).wf(),
            start <= end,
        ensures
            final(self).wf(),
            final(self)@ == remove_range(old(self)@, start as int, end as int),
    {
        match self.root.take() {
            None => {
                self.root = None;
                proof {
                    assert(remove_range(old(self)@, start as int, end as int) =~= Seq::<
                        T,
                    >::empty());
                }
            },
            Some(x) => {
                self.root = x.delete(start, end);
                proof {
                    if self.root is None {
                        assert(self@ =~= remove_range(old(self)@, start as int, end as int));
                    }
                }
            },
        }
    }

    /// A copy of the whole element sequence, in order.
    pub fn iter(&self) -> (r: Vec<T>)
        where
            T: Copy,
        requires
            self.wf(),
        ensures
            r@ == self@,
    {
        let mut full: Vec<T> = Vec::new();
        match &self.root {
            Some(x) => {
                x.push_range_to(&mut full);
            },
            None => {},
        }
        full
    }

    /// A copy of the elements at positions `[start, end)`, both
    /// bounds clamped to the length.
    pub fn iter_range(&self, start: usize, end: usize) -> (r: Vec<T>)
        where
            T: Copy,
        requires
            self.wf(),
        ensures
            r@ == ({
                let hi = if end < self@.len() { end as int } else { self@.len() as int };
                let lo = if start < hi { start as int } else { hi };
                self@.subrange(lo, hi)
            }),
    {
        let mut full: Vec<T> = Vec::new();
        match &self.root {
            Some(x) => {
                x.push_range_to(&mut full);
            },
            None => {},
        }
        let len = full.len();
        let hi = if end < len {
            end
        } else {
            len
        };
        let lo = if start < hi {
            start
        } else {
            hi
        };
        let mut r: Vec<T> = Vec::new();
        let mut i: usize = lo;
        while i < hi
            invariant
                lo <= i <= hi <= len,
                len == full@.len(),
                r@ == full@.subrange(lo as int, i as int),
            decreases hi - i,
        {
            r.push(full[i]);
            proof {
                assert(full@.subrange(lo as int, i as int) + seq![full@[i as int]] =~= full
                    @.subrange(lo as int, i + 1));
            }
            i = i + 1;
        }
        r
    }
}

} // verus!
