//! Laws of dispatch that hold for every tree and every node type.
use vstd::prelude::*;

use crate::context::{ignores, inert, quiet, Dispatch, Receiver, Target};
use crate::framework::{cascade, dispatched, scope, sweep, Framework};

verus! {

/// The message as it reaches node `k` when it is handed on from node `lo`
/// onward, each node passing on what its reaction leaves of it.
pub open spec fn passed<N: Receiver<M>, M>(nodes: Seq<N>, lo: int, k: int, message: M) -> M
    decreases k - lo,
{
    if lo < k {
        passed(nodes, lo + 1, k, nodes[lo].reaction(message, lo as usize).message)
    } else {
        message
    }
}

proof fn lemma_passed_frame<N: Receiver<M>, M>(a: Seq<N>, b: Seq<N>, lo: int, k: int, message: M)
    requires
        forall|i: int| lo <= i < k ==> a[i] == b[i],
    ensures
        passed(a, lo, k, message) == passed(b, lo, k, message),
    decreases k - lo,
{
    if lo < k {
        lemma_passed_frame(a, b, lo + 1, k, a[lo].reaction(message, lo as usize).message);
    }
}

/// Without nested dispatches, a sweep of `lo..hi` makes each node of the
/// range react exactly once, in order, and leaves every other node alone.
proof fn lemma_quiet_sweep<N: Receiver<M>, M>(
    bound: nat,
    nodes: Seq<N>,
    ends: Seq<usize>,
    lo: int,
    hi: int,
    message: M,
)
    requires
        quiet::<N, M>(),
        0 <= lo <= hi <= nodes.len(),
    ensures
        sweep(bound, nodes, ends, lo, hi, message).0.len() == nodes.len(),
        sweep(bound, nodes, ends, lo, hi, message).1 == passed(nodes, lo, hi, message),
        forall|i: int|
            0 <= i < nodes.len() ==> #[trigger] sweep(bound, nodes, ends, lo, hi, message).0[i] == if lo
                <= i < hi {
                nodes[i].reaction(passed(nodes, lo, i, message), i as usize).node
            } else {
                nodes[i]
            },
    decreases hi - lo,
{
    if lo < hi {
        let r = nodes[lo].reaction(message, lo as usize);
        assert(r.requests.len() == 0);
        assert(r.requests =~= Seq::<Dispatch<M>>::empty());
        let next = nodes.update(lo, r.node);
        assert(cascade(bound, next, ends, r.requests) == next);
        lemma_quiet_sweep(bound, next, ends, lo + 1, hi, r.message);
        lemma_passed_frame(next, nodes, lo + 1, hi, r.message);
        assert forall|i: int| lo + 1 <= i < hi implies passed(next, lo + 1, i, r.message) == passed(
            nodes,
            lo,
            i,
            message,
        ) by {
            lemma_passed_frame(next, nodes, lo + 1, i, r.message);
        }
    }
}

proof fn lemma_sweep_keeps<N: Receiver<M>, M>(
    bound: nat,
    nodes: Seq<N>,
    ends: Seq<usize>,
    lo: int,
    hi: int,
    message: M,
    j: int,
)
    requires
        0 <= j < nodes.len(),
        inert::<N, M>(nodes[j]),
    ensures
        sweep(bound, nodes, ends, lo, hi, message).0.len() == nodes.len(),
        sweep(bound, nodes, ends, lo, hi, message).0[j] == nodes[j],
    decreases bound, 1nat, hi - lo,
{
    if 0 <= lo < hi && lo < nodes.len() {
        let r = nodes[lo].reaction(message, lo as usize);
        if lo == j {
            assert(ignores(nodes[j], message));
        }
        let next = nodes.update(lo, r.node);
        lemma_cascade_keeps(bound, next, ends, r.requests, j);
        lemma_sweep_keeps(bound, cascade(bound, next, ends, r.requests), ends, lo + 1, hi, r.message, j);
    }
}

proof fn lemma_cascade_keeps<N: Receiver<M>, M>(
    bound: nat,
    nodes: Seq<N>,
    ends: Seq<usize>,
    requests: Seq<Dispatch<M>>,
    j: int,
)
    requires
        0 <= j < nodes.len(),
        inert::<N, M>(nodes[j]),
    ensures
        cascade(bound, nodes, ends, requests).len() == nodes.len(),
        cascade(bound, nodes, ends, requests)[j] == nodes[j],
    decreases bound, 0nat, requests.len(),
{
    if requests.len() > 0 {
        let q = requests[0];
        if N::rank(q.message) < bound {
            let (lo, hi) = scope(q.target, ends);
            lemma_sweep_keeps(N::rank(q.message), nodes, ends, lo, hi, q.message, j);
            let next = dispatched(nodes, ends, q.target, q.message).0;
            lemma_cascade_keeps(bound, next, ends, requests.drop_first(), j);
        } else {
            lemma_cascade_keeps(bound, nodes, ends, requests.drop_first(), j);
        }
    }
}

proof fn lemma_ignored_sweep<N: Receiver<M>, M>(
    bound: nat,
    nodes: Seq<N>,
    ends: Seq<usize>,
    lo: int,
    hi: int,
    message: M,
)
    requires
        forall|i: int| 0 <= i < nodes.len() ==> ignores(#[trigger] nodes[i], message),
    ensures
        sweep(bound, nodes, ends, lo, hi, message) == (nodes, message),
    decreases hi - lo,
{
    if 0 <= lo < hi && lo < nodes.len() {
        assert(ignores(nodes[lo], message));
        let r = nodes[lo].reaction(message, lo as usize);
        assert(nodes.update(lo, r.node) =~= nodes);
        assert(cascade(bound, nodes, ends, r.requests) == nodes);
        lemma_ignored_sweep(bound, nodes, ends, lo + 1, hi, message);
    }
}

/// A broadcast of a message that no node issues further dispatches for visits
/// every node exactly once, in pre-order (the order of the ids): node `i`
/// reacts once, to the message as the nodes before it passed it on.
pub proof fn broadcast_visits_in_preorder<N: Receiver<M>, M>(framework: Framework<N>, message: M)
    requires
        framework.wf(),
        quiet::<N, M>(),
    ensures
        ({
            let nodes = framework.nodes();
            let (after, out) = dispatched(nodes, framework.ends(), Target::All, message);
            &&& after.len() == nodes.len()
            &&& forall|i: int|
                0 <= i < nodes.len() ==> #[trigger] after[i] == nodes[i].reaction(
                    passed(nodes, 0, i, message),
                    i as usize,
                ).node
            &&& out == passed(nodes, 0, nodes.len() as int, message)
        }),
{
    let nodes = framework.nodes();
    lemma_quiet_sweep(N::rank(message), nodes, framework.ends(), 0, nodes.len() as int, message);
}

/// A node whose type has no reception capability for messages of type `M`
/// keeps its state through any dispatch of such a message, nested dispatches
/// included.
pub proof fn inert_node_unchanged<N: Receiver<M>, M>(
    framework: Framework<N>,
    message: M,
    target: Target,
    j: int,
)
    requires
        framework.wf(),
        0 <= j < framework.nodes().len(),
        inert::<N, M>(framework.nodes()[j]),
    ensures
        dispatched(framework.nodes(), framework.ends(), target, message).0[j] == framework.nodes()[j],
{
    let (lo, hi) = scope(target, framework.ends());
    lemma_sweep_keeps(N::rank(message), framework.nodes(), framework.ends(), lo, hi, message, j);
}

/// Without nested dispatches, a send to one node changes that node only, and
/// a send to a subtree changes only the nodes of that subtree.
pub proof fn targeted_send_isolated<N: Receiver<M>, M>(
    framework: Framework<N>,
    message: M,
    t: usize,
    j: int,
)
    requires
        framework.wf(),
        quiet::<N, M>(),
        0 <= j < framework.nodes().len(),
    ensures
        j != t ==> dispatched(framework.nodes(), framework.ends(), Target::Only(t), message).0[j]
            == framework.nodes()[j],
        !(t <= j < framework.ends()[t as int]) ==> dispatched(
            framework.nodes(),
            framework.ends(),
            Target::Sub(t),
            message,
        ).0[j] == framework.nodes()[j],
{
    let nodes = framework.nodes();
    let ends = framework.ends();
    if t < nodes.len() {
        lemma_quiet_sweep(N::rank(message), nodes, ends, t as int, t + 1, message);
        lemma_quiet_sweep(N::rank(message), nodes, ends, t as int, ends[t as int] as int, message);
    }
}

/// A dispatch issued by a reacting node runs to completion, over the state
/// that the reaction left, before the traversal moves on to the next node;
/// and the dispatches one node issues run one after the other, in order.
pub proof fn nested_dispatch_completes_first<N: Receiver<M>, M>(
    bound: nat,
    nodes: Seq<N>,
    ends: Seq<usize>,
    lo: int,
    hi: int,
    message: M,
)
    requires
        0 <= lo < hi <= nodes.len(),
    ensures
        ({
            let r = nodes[lo].reaction(message, lo as usize);
            sweep(bound, nodes, ends, lo, hi, message) == sweep(
                bound,
                cascade(bound, nodes.update(lo, r.node), ends, r.requests),
                ends,
                lo + 1,
                hi,
                r.message,
            )
        }),
        forall|requests: Seq<Dispatch<M>>|
            requests.len() > 0 && N::rank(requests[0].message) < bound ==> #[trigger] cascade(
                bound,
                nodes,
                ends,
                requests,
            ) == cascade(
                bound,
                dispatched(nodes, ends, requests[0].target, requests[0].message).0,
                ends,
                requests.drop_first(),
            ),
{
}

/// A message that every node ignores changes nothing: neither the tree nor
/// the message.
pub proof fn ignored_message_is_no_op<N: Receiver<M>, M>(
    framework: Framework<N>,
    message: M,
    target: Target,
)
    requires
        framework.wf(),
        forall|i: int| 0 <= i < framework.nodes().len() ==> ignores(#[trigger] framework.nodes()[i], message),
    ensures
        dispatched(framework.nodes(), framework.ends(), target, message) == (framework.nodes(), message),
{
    let (lo, hi) = scope(target, framework.ends());
    lemma_ignored_sweep(N::rank(message), framework.nodes(), framework.ends(), lo, hi, message);
}

} // verus!
