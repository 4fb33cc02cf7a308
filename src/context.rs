//! Reception capabilities and the context handed to a reacting node.
use vstd::prelude::*;

verus! {

/// Where a dispatch goes: node ids are positions in the pre-order layout of the tree.
#[derive(Clone, Copy, Debug, PartialEq, Eq)]
pub enum Target {
    /// Every node of the tree.
    All,
    /// The one node with this id, without its children.
    Only(usize),
    /// The node with this id and all of its descendants.
    Sub(usize),
}

/// A dispatch that a reacting node asks for while it handles a message.
pub struct Dispatch<M> {
    pub message: M,
    pub target: Target,
}

/// What one node does with one message: its new state, the message as it passes
/// it on, and the dispatches it issues, in order.
pub struct Reaction<N, M> {
    pub node: N,
    pub message: M,
    pub requests: Seq<Dispatch<M>>,
}

/// The reception capability of a node type for a message type `M`.
///
/// `reaction` states what `receive` does. A node type that keeps the default
/// ignores every message: its reaction leaves the node and the message as they
/// are and issues nothing. A node type whose reactions issue dispatches gives
/// `rank`, so that each message it issues ranks below the one it handles.
pub trait Receiver<M>: Sized {
    /// What `receive` does when the node has id `id`.
    open spec fn reaction(&self, message: M, id: usize) -> Reaction<Self, M> {
        Reaction { node: *self, message, requests: Seq::empty() }
    }

    /// A measure on messages that every nested dispatch lowers, so that the
    /// cascade of dispatches started by one message comes to an end.
    open spec fn rank(message: M) -> nat {
        0
    }

    /// Reacts to `message`, appending the dispatches it issues to `context`.
    fn receive(&mut self, message: &mut M, context: &mut Context<M>)
        ensures
            *final(self) == old(self).reaction(*old(message), old(context).origin()).node,
            *final(message) == old(self).reaction(*old(message), old(context).origin()).message,
            final(context).origin() == old(context).origin(),
            final(context)@ == old(context)@ + old(self).reaction(*old(message), old(context).origin()).requests,
            Self::rank(*final(message)) <= Self::rank(*old(message)),
            forall|k: int|
                0 <= k < old(self).reaction(*old(message), old(context).origin()).requests.len() ==> Self::rank(
                    #[trigger] old(self).reaction(*old(message), old(context).origin()).requests[k].message,
                ) < Self::rank(*old(message)),
    ;
}

/// Whether `node` ignores `message`, wherever it stands: its reaction leaves
/// both as they are and issues no dispatch.
pub open spec fn ignores<N: Receiver<M>, M>(node: N, message: M) -> bool {
    forall|id: usize|
        #[trigger] node.reaction(message, id) == Reaction {
            node,
            message,
            requests: Seq::<Dispatch<M>>::empty(),
        }
}

/// Whether `node` has no reception capability for messages of type `M`.
pub open spec fn inert<N: Receiver<M>, M>(node: N) -> bool {
    forall|message: M| #[trigger] ignores(node, message)
}

/// Whether no node of type `N` ever issues a dispatch when it reacts to a
/// message of type `M`.
pub open spec fn quiet<N: Receiver<M>, M>() -> bool {
    forall|node: N, message: M, id: usize| (#[trigger] node.reaction(message, id)).requests.len() == 0
}

/// Collects, for one reacting node, the dispatches it issues.
pub struct Context<M> {
    origin: usize,
    requests: Vec<Dispatch<M>>,
}

impl<M> View for Context<M> {
    type V = Seq<Dispatch<M>>;

    closed spec fn view(&self) -> Seq<Dispatch<M>> {
        self.requests@
    }
}

impl<M> Context<M> {
    /// The id of the node that reacts.
    pub closed spec fn origin(&self) -> usize {
        self.origin
    }

    /// A context for the node `origin`, with no dispatch issued yet.
    pub fn new(origin: usize) -> (r: Self)
        ensures
            r.origin() == origin,
            r@ == Seq::<Dispatch<M>>::empty(),
    {
        Context { origin, requests: Vec::new() }
    }

    /// The id of the node that reacts.
    pub fn id(&self) -> (r: usize)
        ensures
            r == self.origin(),
    {
        self.origin
    }

    /// Issues `message` to every node of the tree.
    pub fn broadcast(&mut self, message: M)
        ensures
            final(self).origin() == old(self).origin(),
            final(self)@ == old(self)@.push(Dispatch { message, target: Target::All }),
    {
        self.requests.push(Dispatch { message, target: Target::All });
    }

    /// Issues `message` to the node `target` only, not to its children.
    pub fn send(&mut self, message: M, target: usize)
        ensures
            final(self).origin() == old(self).origin(),
            final(self)@ == old(self)@.push(Dispatch { message, target: Target::Only(target) }),
    {
        self.requests.push(Dispatch { message, target: Target::Only(target) });
    }

    /// Issues `message` to the node `target` and all of its descendants.
    pub fn send_sub(&mut self, message: M, target: usize)
        ensures
            final(self).origin() == old(self).origin(),
            final(self)@ == old(self)@.push(Dispatch { message, target: Target::Sub(target) }),
    {
        self.requests.push(Dispatch { message, target: Target::Sub(target) });
    }

    /// Issues a message built from data copied out of `from` (most often the
    /// reacting node itself) to `target`: `selector` picks the data and
    /// `creator` builds the message from it.
    pub fn dispatch_with<S, F, Sel, C>(&mut self, from: &S, selector: Sel, creator: C, target: Target) where
        Sel: FnOnce(&S) -> F,
        C: FnOnce(F) -> M,

        requires
            selector.requires((from,)),
            forall|f: F| selector.ensures((from,), f) ==> creator.requires((f,)),
        ensures
            final(self).origin() == old(self).origin(),
            exists|f: F, m: M|
                {
                    &&& selector.ensures((from,), f)
                    &&& creator.ensures((f,), m)
                    &&& final(self)@ == old(self)@.push(Dispatch { message: m, target })
                },
    {
        let fields = selector(from);
        let message = creator(fields);
        self.requests.push(Dispatch { message, target });
    }

    /// Issues a message built from data copied out of `from` to every node.
    pub fn broadcast_with<S, F, Sel, C>(&mut self, from: &S, selector: Sel, creator: C) where
        Sel: FnOnce(&S) -> F,
        C: FnOnce(F) -> M,

        requires
            selector.requires((from,)),
            forall|f: F| selector.ensures((from,), f) ==> creator.requires((f,)),
        ensures
            final(self).origin() == old(self).origin(),
            exists|f: F, m: M|
                {
                    &&& selector.ensures((from,), f)
                    &&& creator.ensures((f,), m)
                    &&& final(self)@ == old(self)@.push(Dispatch { message: m, target: Target::All })
                },
    {
        self.dispatch_with(from, selector, creator, Target::All)
    }

    /// Issues a message built from data copied out of `from` to the node
    /// `target` only.
    pub fn send_with<S, F, Sel, C>(&mut self, from: &S, selector: Sel, creator: C, target: usize) where
        Sel: FnOnce(&S) -> F,
        C: FnOnce(F) -> M,

        requires
            selector.requires((from,)),
            forall|f: F| selector.ensures((from,), f) ==> creator.requires((f,)),
        ensures
            final(self).origin() == old(self).origin(),
            exists|f: F, m: M|
                {
                    &&& selector.ensures((from,), f)
                    &&& creator.ensures((f,), m)
                    &&& final(self)@ == old(self)@.push(Dispatch { message: m, target: Target::Only(target) })
                },
    {
        self.dispatch_with(from, selector, creator, Target::Only(target))
    }

    /// Issues a message built from data copied out of `from` to the node
    /// `target` and its descendants.
    pub fn send_sub_with<S, F, Sel, C>(&mut self, from: &S, selector: Sel, creator: C, target: usize) where
        Sel: FnOnce(&S) -> F,
        C: FnOnce(F) -> M,

        requires
            selector.requires((from,)),
            forall|f: F| selector.ensures((from,), f) ==> creator.requires((f,)),
        ensures
            final(self).origin() == old(self).origin(),
            exists|f: F, m: M|
                {
                    &&& selector.ensures((from,), f)
                    &&& creator.ensures((f,), m)
                    &&& final(self)@ == old(self)@.push(Dispatch { message: m, target: Target::Sub(target) })
                },
    {
        self.dispatch_with(from, selector, creator, Target::Sub(target))
    }

    /// The dispatches issued so far, in order.
    pub fn requests(&self) -> (r: &Vec<Dispatch<M>>)
        ensures
            r@ == self@,
    {
        &self.requests
    }

    /// The dispatches issued, in order, handed over to the engine.
    pub(crate) fn into_requests(self) -> (r: Vec<Dispatch<M>>)
        ensures
            r@ == self@,
    {
        self.requests
    }
}

} // verus!
