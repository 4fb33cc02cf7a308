//! The tree of nodes as it is composed, and its pre-order layout.
use vstd::prelude::*;

verus! {

broadcast use vstd::std_specs::vec::group_vec_axioms;

/// A node of the tree together with the nodes it owns, in declared order.
pub struct Actor<N> {
    pub node: N,
    pub children: Vec<Actor<N>>,
}

/// The nodes of `a` in pre-order: the node itself, then each child's
/// subtree, in declared order.
pub open spec fn preorder<N>(a: Actor<N>) -> Seq<N>
    decreases a,
{
    seq![a.node] + preorder_all(a.children@)
}

/// The nodes of the subtrees `s`, one subtree after the other, each in pre-order.
pub open spec fn preorder_all<N>(s: Seq<Actor<N>>) -> Seq<N>
    decreases s,
{
    if s.len() == 0 {
        Seq::empty()
    } else {
        preorder_all(s.drop_last()) + preorder(s.last())
    }
}

/// For each node of `a` in pre-order, where its subtree ends when `a` is laid
/// out from position `at`.
pub open spec fn spans<N>(a: Actor<N>, at: int) -> Seq<int>
    decreases a,
{
    seq![at + preorder(a).len()] + spans_all(a.children@, at + 1)
}

/// `spans` of the subtrees `s` laid out one after the other from position `at`.
pub open spec fn spans_all<N>(s: Seq<Actor<N>>, at: int) -> Seq<int>
    decreases s,
{
    if s.len() == 0 {
        Seq::empty()
    } else {
        spans_all(s.drop_last(), at) + spans(s.last(), at + preorder_all(s.drop_last()).len())
    }
}

/// Whether the subtrees that `ends` records for the positions from `lo` on
/// nest: every node inside the subtree of `i` has its own subtree inside it.
pub open spec fn nested_from(ends: Seq<usize>, lo: int) -> bool {
    forall|i: int, j: int|
        lo <= i < j < ends.len() && j < ends[i] ==> #[trigger] ends[j] <= #[trigger] ends[i]
}

/// Lays a tree out in pre-order: each node gets as id its position, and the
/// end of its subtree is recorded beside it.
pub struct ActorVisitor<N> {
    nodes: Vec<N>,
    ends: Vec<usize>,
}

impl<N> ActorVisitor<N> {
    /// The nodes laid out so far.
    pub closed spec fn nodes(&self) -> Seq<N> {
        self.nodes@
    }

    /// The end of each laid-out node's subtree.
    pub closed spec fn ends(&self) -> Seq<usize> {
        self.ends@
    }

    /// A layout with no node yet.
    pub fn new() -> (r: Self)
        ensures
            r.nodes() == Seq::<N>::empty(),
            r.ends() == Seq::<usize>::empty(),
    {
        ActorVisitor { nodes: Vec::new(), ends: Vec::new() }
    }

    /// The nodes and subtree ends laid out.
    pub fn into_parts(self) -> (r: (Vec<N>, Vec<usize>))
        ensures
            r.0@ == self.nodes(),
            r.1@ == self.ends(),
    {
        (self.nodes, self.ends)
    }
}

impl<N> Actor<N> {
    /// A node with no children.
    pub fn leaf(node: N) -> (r: Self)
        ensures
            r.node == node,
            r.children@ == Seq::<Actor<N>>::empty(),
    {
        Actor { node, children: Vec::new() }
    }

    /// Adds `child` after the children already declared.
    pub fn push_child(&mut self, child: Actor<N>)
        ensures
            final(self).node == old(self).node,
            final(self).children@ == old(self).children@.push(child),
    {
        self.children.push(child);
    }

    /// Adds the subtrees `children` after the children already declared, in
    /// their order (that of a list, an array, a tuple, or the values of a map
    /// in its iteration order).
    pub fn push_children(&mut self, children: Vec<Actor<N>>)
        ensures
            final(self).node == old(self).node,
            final(self).children@ == old(self).children@ + children@,
    {
        let mut rest = children;
        self.children.append(&mut rest);
    }

    /// Adds an optional child: none for `None`, one for `Some`.
    pub fn push_option(&mut self, child: Option<Actor<N>>)
        ensures
            final(self).node == old(self).node,
            final(self).children@ == match child {
                Some(c) => old(self).children@.push(c),
                None => old(self).children@,
            },
    {
        if let Some(c) = child {
            self.children.push(c);
        }
    }

    /// Adds the one side that `child` holds.
    pub fn push_result(&mut self, child: Result<Actor<N>, Actor<N>>)
        ensures
            final(self).node == old(self).node,
            final(self).children@ == match child {
                Ok(c) => old(self).children@.push(c),
                Err(c) => old(self).children@.push(c),
            },
    {
        match child {
            Ok(c) => self.children.push(c),
            Err(c) => self.children.push(c),
        }
    }

    /// Lays `self` out after what `visitor` holds: first the node, then each
    /// child's subtree in declared order.
    pub fn accept(self, visitor: &mut ActorVisitor<N>)
        requires
            old(visitor).nodes().len() == old(visitor).ends().len(),
        ensures
            final(visitor).nodes() == old(visitor).nodes() + preorder(self),
            final(visitor).ends().len() == final(visitor).nodes().len(),
            forall|i: int|
                0 <= i < old(visitor).ends().len() ==> #[trigger] final(visitor).ends()[i]
                    == old(visitor).ends()[i],
            forall|j: int|
                0 <= j < preorder(self).len() ==> #[trigger] final(visitor).ends()[old(
                    visitor,
                ).ends().len() + j] == spans(self, old(visitor).ends().len() as int)[j],
            forall|j: int|
                0 <= j < preorder(self).len() ==> old(visitor).ends().len() + j
                    < #[trigger] final(visitor).ends()[old(visitor).ends().len() + j]
                    <= final(visitor).ends().len(),
            nested_from(final(visitor).ends(), old(visitor).ends().len() as int),
        decreases preorder(self).len(),
    {
        let ghost whole = self;
        let at = visitor.nodes.len();
        visitor.nodes.push(self.node);
        visitor.ends.push(at);
        let mut children = self.children;
        let ghost all = children@;
        assert(all.len() <= usize::MAX) by {
            let n = children.len();
        }
        let mut k: usize = 0;
        while children.len() > 0
            invariant
                whole == self,
                old(visitor).nodes().len() == old(visitor).ends().len(),
                all == whole.children@,
                all.len() <= usize::MAX,
                k + children@.len() == all.len(),
                children@ == all.subrange(k as int, all.len() as int),
                visitor.nodes().len() == visitor.ends().len(),
                visitor.nodes() == old(visitor).nodes() + seq![whole.node] + preorder_all(all.take(k as int)),
                at == old(visitor).ends().len(),
                forall|i: int| 0 <= i < at ==> #[trigger] visitor.ends()[i] == old(visitor).ends()[i],
                forall|j: int|
                    0 <= j < preorder_all(all.take(k as int)).len() ==> #[trigger] visitor.ends()[at + 1 + j]
                        == spans_all(all.take(k as int), at + 1)[j],
                forall|j: int|
                    0 <= j < preorder_all(all.take(k as int)).len() ==> at + 1 + j
                        < #[trigger] visitor.ends()[at + 1 + j] <= visitor.ends().len(),
                nested_from(visitor.ends(), at + 1),
            decreases children.len(),
        {
            let child = children.remove(0);
            assert(child == all[k as int]);
            proof {
                lemma_take_step(all, k as int);
                lemma_prefix_len(all, k as int + 1);
                assert(preorder(whole).len() == 1 + preorder_all(all).len());
                assert(preorder(child).len() < preorder(whole).len());
            }
            let ghost before = visitor.ends();
            child.accept(visitor);
            proof {
                let done = all.take(k as int);
                lemma_spans_all_len(done, at + 1);
                lemma_spans_len(child, before.len() as int);
                assert(before.len() == at + 1 + preorder_all(done).len());
                assert forall|j: int| 0 <= j < preorder_all(all.take(k + 1)).len() implies #[trigger] visitor.ends()[at + 1 + j]
                    == spans_all(all.take(k + 1), at + 1)[j] && at + 1 + j < visitor.ends()[at + 1 + j] <= visitor.ends().len() by {
                    if j >= preorder_all(done).len() {
                        let jj = j - preorder_all(done).len();
                        assert(visitor.ends()[before.len() + jj] == spans(child, before.len() as int)[jj]);
                    }
                }
                assert forall|i: int, j: int|
                    at + 1 <= i < j < visitor.ends().len() && j < visitor.ends()[i] implies #[trigger] visitor.ends()[j]
                        <= #[trigger] visitor.ends()[i] by {
                    if i < before.len() {
                        assert(before[at + 1 + (i - at - 1)] <= before.len());
                    }
                }
            }
            k += 1;
        }
        assert(all.take(k as int) =~= all);
        let end = visitor.nodes.len();
        visitor.ends.set(at, end);
        proof {
            lemma_spans_all_len(all, at + 1);
            assert(spans(whole, at as int) == seq![at + preorder(whole).len()] + spans_all(all, at + 1));
            assert forall|j: int| 0 <= j < preorder(whole).len() implies #[trigger] visitor.ends()[at + j]
                == spans(whole, at as int)[j] && at + j < visitor.ends()[at + j] <= visitor.ends().len() by {
                if j > 0 {
                    assert(visitor.ends()[at + 1 + (j - 1)] == spans_all(all, at + 1)[j - 1]);
                }
            }
            assert forall|i: int, j: int|
                at <= i < j < visitor.ends().len() && j < visitor.ends()[i] implies #[trigger] visitor.ends()[j]
                    <= #[trigger] visitor.ends()[i] by {
                if i == at {
                    assert(visitor.ends()[at + (j - at)] <= visitor.ends().len());
                }
            }
        }
    }
}

proof fn lemma_spans_len<N>(a: Actor<N>, at: int)
    ensures
        spans(a, at).len() == preorder(a).len(),
    decreases a,
{
    lemma_spans_all_len(a.children@, at + 1);
}

proof fn lemma_spans_all_len<N>(s: Seq<Actor<N>>, at: int)
    ensures
        spans_all(s, at).len() == preorder_all(s).len(),
    decreases s,
{
    if s.len() > 0 {
        lemma_spans_all_len(s.drop_last(), at);
        lemma_spans_len(s.last(), at + preorder_all(s.drop_last()).len());
    }
}

/// Laying out one more subtree appends its nodes and its spans.
proof fn lemma_take_step<N>(s: Seq<Actor<N>>, k: int)
    requires
        0 <= k < s.len(),
    ensures
        preorder_all(s.take(k + 1)) == preorder_all(s.take(k)) + preorder(s[k]),
        forall|at: int|
            spans_all(s.take(k + 1), at) == #[trigger] spans_all(s.take(k), at) + spans(
                s[k],
                at + preorder_all(s.take(k)).len(),
            ),
{
    assert(s.take(k + 1).drop_last() =~= s.take(k));
}

/// The subtrees of a prefix hold no more nodes than all of them.
proof fn lemma_prefix_len<N>(s: Seq<Actor<N>>, k: int)
    requires
        0 <= k <= s.len(),
    ensures
        preorder_all(s.take(k)).len() <= preorder_all(s).len(),
    decreases s.len() - k,
{
    if k < s.len() {
        lemma_take_step(s, k);
        lemma_prefix_len(s, k + 1);
    } else {
        assert(s.take(k) =~= s);
    }
}

} // verus!
