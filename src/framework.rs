//! The root container and the dispatch engine.
use vstd::prelude::*;

use crate::actor::{nested_from, preorder, spans, Actor, ActorVisitor};
use crate::context::{Context, Dispatch, Receiver, Target};

verus! {

/// The ids that `target` addresses, as the half-open range `lo..hi` of the
/// pre-order layout whose subtree ends are `ends`. An id outside the tree
/// addresses nothing.
pub open spec fn scope(target: Target, ends: Seq<usize>) -> (int, int) {
    match target {
        Target::All => (0, ends.len() as int),
        Target::Only(i) => if i < ends.len() {
            (i as int, i + 1)
        } else {
            (0, 0)
        },
        Target::Sub(i) => if i < ends.len() {
            (i as int, ends[i as int] as int)
        } else {
            (0, 0)
        },
    }
}

/// The nodes and the message after `message` has been delivered, in order, to
/// the nodes `lo..hi`; each reaction is followed at once by the dispatches it
/// issued, before the next node is visited. `bound` caps the rank of every
/// nested dispatch.
pub open spec fn sweep<N: Receiver<M>, M>(
    bound: nat,
    nodes: Seq<N>,
    ends: Seq<usize>,
    lo: int,
    hi: int,
    message: M,
) -> (Seq<N>, M)
    decreases bound, 1nat, hi - lo,
{
    if 0 <= lo < hi && lo < nodes.len() {
        let r = nodes[lo].reaction(message, lo as usize);
        let after = cascade(bound, nodes.update(lo, r.node), ends, r.requests);
        sweep(bound, after, ends, lo + 1, hi, r.message)
    } else {
        (nodes, message)
    }
}

/// The nodes after the dispatches `requests` have run to completion, one
/// after the other. A dispatch whose rank is not under `bound` is skipped.
pub open spec fn cascade<N: Receiver<M>, M>(
    bound: nat,
    nodes: Seq<N>,
    ends: Seq<usize>,
    requests: Seq<Dispatch<M>>,
) -> Seq<N>
    decreases bound, 0nat, requests.len(),
{
    if requests.len() == 0 {
        nodes
    } else {
        let q = requests[0];
        let next = if N::rank(q.message) < bound {
            dispatched(nodes, ends, q.target, q.message).0
        } else {
            nodes
        };
        cascade(bound, next, ends, requests.drop_first())
    }
}

/// The nodes and the message after `message` has been dispatched to `target`
/// and everything that it set off has run to completion.
pub open spec fn dispatched<N: Receiver<M>, M>(
    nodes: Seq<N>,
    ends: Seq<usize>,
    target: Target,
    message: M,
) -> (Seq<N>, M)
    decreases N::rank(message), 2nat, 0nat,
{
    let (lo, hi) = scope(target, ends);
    sweep(N::rank(message), nodes, ends, lo, hi, message)
}

/// Whether `ends` fits a pre-order layout of `ends.len()` nodes: the subtree of
/// node `i` is the range `i..ends[i]`.
pub open spec fn spans_fit(ends: Seq<usize>) -> bool {
    forall|i: int| 0 <= i < ends.len() ==> i < #[trigger] ends[i] <= ends.len()
}

/// The root container: it owns every node of the tree, laid out in pre-order.
pub struct Framework<N> {
    nodes: Vec<N>,
    ends: Vec<usize>,
}

impl<N> Framework<N> {
    /// The nodes, in pre-order.
    pub closed spec fn nodes(&self) -> Seq<N> {
        self.nodes@
    }

    /// For each node, the end of its subtree in the pre-order layout.
    pub closed spec fn ends(&self) -> Seq<usize> {
        self.ends@
    }

    /// One subtree end per node, each past its node and within the tree, and
    /// the subtrees nested as a tree's are.
    pub open spec fn wf(&self) -> bool {
        &&& self.nodes().len() == self.ends().len()
        &&& spans_fit(self.ends())
        &&& nested_from(self.ends(), 0)
    }

    /// Takes ownership of the tree `root`. Node ids are positions in its
    /// pre-order: the root is 0, and the subtree of node `i` is `i..ends()[i]`.
    pub fn new(root: Actor<N>) -> (r: Self)
        ensures
            r.wf(),
            r.nodes() == preorder(root),
            forall|i: int| 0 <= i < r.ends().len() ==> #[trigger] r.ends()[i] == spans(root, 0)[i],
    {
        let mut visitor = ActorVisitor::new();
        let ghost tree = root;
        root.accept(&mut visitor);
        let (nodes, ends) = visitor.into_parts();
        assert forall|i: int| 0 <= i < ends@.len() implies #[trigger] ends@[i] == spans(tree, 0)[i] && i
            < ends@[i] <= ends@.len() by {
            assert(visitor.ends()[0 + i] == spans(tree, 0)[i]);
        }
        Framework { nodes, ends }
    }

    /// The number of nodes in the tree.
    pub fn len(&self) -> (r: usize)
        ensures
            r == self.nodes().len(),
    {
        self.nodes.len()
    }

    /// Where the subtree of node `id` ends: its descendants are the nodes
    /// `id + 1..end_of(id)`.
    pub fn end_of(&self, id: usize) -> (r: usize)
        requires
            self.wf(),
            id < self.nodes().len(),
        ensures
            r == self.ends()[id as int],
            id < r <= self.nodes().len(),
    {
        self.ends[id]
    }

    /// The node with id `id`, read-only.
    pub fn get(&self, id: usize) -> (r: &N)
        requires
            id < self.nodes().len(),
        ensures
            *r == self.nodes()[id as int],
    {
        &self.nodes[id]
    }

    /// Exclusive access to the node with id `id`, outside of any dispatch.
    pub fn get_mut(&mut self, id: usize) -> (r: &mut N)
        requires
            old(self).wf(),
            id < old(self).nodes().len(),
        ensures
            *r == old(self).nodes()[id as int],
            final(self).wf(),
            final(self).ends() == old(self).ends(),
            final(self).nodes() == old(self).nodes().update(id as int, *final(r)),
    {
        &mut self.nodes[id]
    }

    /// Dispatches `message` to `target`; every dispatch that a reacting node
    /// issues runs to completion before the next node is visited.
    pub fn dispatch<M>(&mut self, message: &mut M, target: Target) where N: Receiver<M>,
        requires
            old(self).wf(),
        ensures
            final(self).wf(),
            final(self).ends() == old(self).ends(),
            (final(self).nodes(), *final(message)) == dispatched(
                old(self).nodes(),
                old(self).ends(),
                target,
                *old(message),
            ),
    {
        let ghost rank = N::rank(*message);
        let n = self.nodes.len();
        match target {
            Target::All => self.deliver(message, 0, n, Ghost(rank)),
            Target::Only(t) => if t < n {
                self.deliver(message, t, t + 1, Ghost(rank));
            },
            Target::Sub(t) => if t < n {
                let e = self.ends[t];
                self.deliver(message, t, e, Ghost(rank));
            },
        }
    }

    /// Sends `message` to every node of the tree, in pre-order.
    pub fn send<M>(&mut self, message: &mut M) where N: Receiver<M>,
        requires
            old(self).wf(),
        ensures
            final(self).wf(),
            final(self).ends() == old(self).ends(),
            (final(self).nodes(), *final(message)) == dispatched(
                old(self).nodes(),
                old(self).ends(),
                Target::All,
                *old(message),
            ),
    {
        self.dispatch(message, Target::All)
    }

    /// Sends `message` to the node `target` only, not to its children.
    pub fn send_to<M>(&mut self, message: &mut M, target: usize) where N: Receiver<M>,
        requires
            old(self).wf(),
        ensures
            final(self).wf(),
            final(self).ends() == old(self).ends(),
            (final(self).nodes(), *final(message)) == dispatched(
                old(self).nodes(),
                old(self).ends(),
                Target::Only(target),
                *old(message),
            ),
    {
        self.dispatch(message, Target::Only(target))
    }

    /// Sends `message` to the node `target` and to all of its descendants.
    pub fn send_sub<M>(&mut self, message: &mut M, target: usize) where N: Receiver<M>,
        requires
            old(self).wf(),
        ensures
            final(self).wf(),
            final(self).ends() == old(self).ends(),
            (final(self).nodes(), *final(message)) == dispatched(
                old(self).nodes(),
                old(self).ends(),
                Target::Sub(target),
                *old(message),
            ),
    {
        self.dispatch(message, Target::Sub(target))
    }

    /// Builds a message from data copied out of the node `source` and
    /// dispatches it to `target`. `selector` picks the data and `creator`
    /// builds the message from it; the data is taken by value, so no borrow of
    /// the tree outlives the selection.
    pub fn dispatch_with<F, M, Sel, C>(&mut self, source: usize, selector: Sel, creator: C, target: Target) where
        N: Receiver<M>,
        Sel: FnOnce(&N) -> F,
        C: FnOnce(F) -> M,

        requires
            old(self).wf(),
            source < old(self).nodes().len(),
            selector.requires((&old(self).nodes()[source as int],)),
            forall|f: F| selector.ensures((&old(self).nodes()[source as int],), f) ==> creator.requires((f,)),
        ensures
            final(self).wf(),
            final(self).ends() == old(self).ends(),
            exists|f: F, m: M|
                {
                    &&& selector.ensures((&old(self).nodes()[source as int],), f)
                    &&& creator.ensures((f,), m)
                    &&& final(self).nodes() == dispatched(old(self).nodes(), old(self).ends(), target, m).0
                },
    {
        let fields = selector(&self.nodes[source]);
        let mut message = creator(fields);
        let ghost m = message;
        self.dispatch(&mut message, target);
        assert(selector.ensures((&old(self).nodes()[source as int],), fields) && creator.ensures((fields,), m));
    }

    /// Builds a message from data copied out of the node `source` and sends it
    /// to every node of the tree.
    pub fn send_with<F, M, Sel, C>(&mut self, source: usize, selector: Sel, creator: C) where
        N: Receiver<M>,
        Sel: FnOnce(&N) -> F,
        C: FnOnce(F) -> M,

        requires
            old(self).wf(),
            source < old(self).nodes().len(),
            selector.requires((&old(self).nodes()[source as int],)),
            forall|f: F| selector.ensures((&old(self).nodes()[source as int],), f) ==> creator.requires((f,)),
        ensures
            final(self).wf(),
            final(self).ends() == old(self).ends(),
            exists|f: F, m: M|
                {
                    &&& selector.ensures((&old(self).nodes()[source as int],), f)
                    &&& creator.ensures((f,), m)
                    &&& final(self).nodes() == dispatched(old(self).nodes(), old(self).ends(), Target::All, m).0
                },
    {
        self.dispatch_with(source, selector, creator, Target::All)
    }

    /// Builds a message from data copied out of the node `source` and sends it
    /// to the node `target` only.
    pub fn send_to_with<F, M, Sel, C>(&mut self, source: usize, selector: Sel, creator: C, target: usize) where
        N: Receiver<M>,
        Sel: FnOnce(&N) -> F,
        C: FnOnce(F) -> M,

        requires
            old(self).wf(),
            source < old(self).nodes().len(),
            selector.requires((&old(self).nodes()[source as int],)),
            forall|f: F| selector.ensures((&old(self).nodes()[source as int],), f) ==> creator.requires((f,)),
        ensures
            final(self).wf(),
            final(self).ends() == old(self).ends(),
            exists|f: F, m: M|
                {
                    &&& selector.ensures((&old(self).nodes()[source as int],), f)
                    &&& creator.ensures((f,), m)
                    &&& final(self).nodes() == dispatched(old(self).nodes(), old(self).ends(), Target::Only(target), m).0
                },
    {
        self.dispatch_with(source, selector, creator, Target::Only(target))
    }

    /// Builds a message from data copied out of the node `source` and sends it
    /// to the node `target` and its descendants.
    pub fn send_sub_with<F, M, Sel, C>(&mut self, source: usize, selector: Sel, creator: C, target: usize) where
        N: Receiver<M>,
        Sel: FnOnce(&N) -> F,
        C: FnOnce(F) -> M,

        requires
            old(self).wf(),
            source < old(self).nodes().len(),
            selector.requires((&old(self).nodes()[source as int],)),
            forall|f: F| selector.ensures((&old(self).nodes()[source as int],), f) ==> creator.requires((f,)),
        ensures
            final(self).wf(),
            final(self).ends() == old(self).ends(),
            exists|f: F, m: M|
                {
                    &&& selector.ensures((&old(self).nodes()[source as int],), f)
                    &&& creator.ensures((f,), m)
                    &&& final(self).nodes() == dispatched(old(self).nodes(), old(self).ends(), Target::Sub(target), m).0
                },
    {
        self.dispatch_with(source, selector, creator, Target::Sub(target))
    }

    /// Delivers `message` to the nodes `lo..hi`.
    fn deliver<M>(&mut self, message: &mut M, lo: usize, hi: usize, Ghost(bound): Ghost<nat>) where
        N: Receiver<M>,

        requires
            old(self).wf(),
            lo <= hi <= old(self).nodes().len(),
            N::rank(*old(message)) <= bound,
        ensures
            final(self).wf(),
            final(self).ends() == old(self).ends(),
            (final(self).nodes(), *final(message)) == sweep(
                bound,
                old(self).nodes(),
                old(self).ends(),
                lo as int,
                hi as int,
                *old(message),
            ),
        decreases bound, 1nat, hi - lo,
    {
        let mut i: usize = lo;
        while i < hi
            invariant
                self.wf(),
                self.ends() == old(self).ends(),
                lo <= i <= hi,
                hi <= self.nodes().len(),
                N::rank(*message) <= bound,
                sweep(bound, old(self).nodes(), old(self).ends(), lo as int, hi as int, *old(message))
                    == sweep(bound, self.nodes(), self.ends(), i as int, hi as int, *message),
            decreases hi - i,
        {
            let mut context = Context::new(i);
            self.nodes[i].receive(message, &mut context);
            let requests = context.into_requests();
            self.run(requests, Ghost(bound));
            i += 1;
        }
    }

    /// Runs `requests` to completion, one after the other.
    fn run<M>(&mut self, requests: Vec<Dispatch<M>>, Ghost(bound): Ghost<nat>) where
        N: Receiver<M>,

        requires
            old(self).wf(),
            forall|k: int| 0 <= k < requests@.len() ==> N::rank(#[trigger] requests@[k].message) < bound,
        ensures
            final(self).wf(),
            final(self).ends() == old(self).ends(),
            final(self).nodes() == cascade(bound, old(self).nodes(), old(self).ends(), requests@),
        decreases bound, 0nat, 0nat,
    {
        let mut pending = requests;
        while pending.len() > 0
            invariant
                self.wf(),
                self.ends() == old(self).ends(),
                forall|k: int| 0 <= k < pending@.len() ==> N::rank(#[trigger] pending@[k].message) < bound,
                cascade(bound, old(self).nodes(), old(self).ends(), requests@)
                    == cascade(bound, self.nodes(), self.ends(), pending@),
            decreases pending.len(),
        {
            let ghost before = pending@;
            let ghost nodes_before = self.nodes();
            let q = pending.remove(0);
            assert(pending@ =~= before.drop_first());
            let mut message = q.message;
            let ghost rank = N::rank(message);
            let n = self.nodes.len();
            match q.target {
                Target::All => self.deliver(&mut message, 0, n, Ghost(rank)),
                Target::Only(t) => if t < n {
                    self.deliver(&mut message, t, t + 1, Ghost(rank));
                },
                Target::Sub(t) => if t < n {
                    let e = self.ends[t];
                    self.deliver(&mut message, t, e, Ghost(rank));
                },
            }
            assert(self.nodes() == dispatched(nodes_before, self.ends(), before[0].target, before[0].message).0);
        }
    }
}

} // verus!
