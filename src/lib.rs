//! Typed message routing through a static tree of stateful nodes.
//!
//! A tree is composed as an [`Actor`] and handed to a [`Framework`], which lays
//! it out in pre-order and owns it from then on. A message sent through the
//! framework visits the addressed nodes in pre-order; each node reacts through
//! its [`Receiver`] capability and may issue further dispatches through its
//! [`Context`], which run to completion before the traversal moves on.
pub mod actor;
pub mod context;
pub mod framework;
pub mod laws;

pub use actor::{Actor, ActorVisitor};
pub use context::{Context, Dispatch, Reaction, Receiver, Target};
pub use framework::Framework;
