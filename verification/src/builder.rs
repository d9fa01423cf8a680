//! Builder pattern implementation for state machines.

use vstd::prelude::*;

use crate::fsm::StateMachine;
use crate::fsm::Stateful;
use crate::registry::lemma_map_of_pairs_push;
use crate::registry::map_of_pairs;

verus! {

/// Builder for constructing state machines: accumulates `(state, handler)`
/// pairs and an optional superstate table, then yields a fresh, uninitialized
/// [`StateMachine`].
pub struct StateMachineBuilder<CTX, E, H> {
    context: CTX,
    states: Vec<(u64, H)>,
    superstates: Option<Vec<(u64, u64)>>,
    events: core::marker::PhantomData<E>,
}

/// The abstract state of a builder: what has been registered so far.
pub struct BuilderView<CTX, H> {
    /// The handler registered for each state, a later registration replacing
    /// an earlier one.
    pub states: Map<u64, H>,
    /// The superstate table, if one was supplied.
    pub parents: Option<Map<u64, u64>>,
    /// The context the machine will own.
    pub context: CTX,
}

impl<CTX, E, H> View for StateMachineBuilder<CTX, E, H> {
    type V = BuilderView<CTX, H>;

    closed spec fn view(&self) -> BuilderView<CTX, H> {
        BuilderView {
            states: map_of_pairs(self.states@),
            parents: match self.superstates {
                Some(t) => Some(map_of_pairs(t@)),
                None => None,
            },
            context: self.context,
        }
    }
}

impl<CTX, E, H: Stateful<u64, CTX, E>> StateMachineBuilder<CTX, E, H> {
    /// Create a new builder with the given context.
    pub fn new(context: CTX) -> (r: Self)
        ensures
            r@.states == Map::<u64, H>::empty(),
            r@.parents is None,
            r@.context == context,
    {
        Self { context, states: Vec::new(), superstates: None, events: core::marker::PhantomData }
    }

    /// Add a state to the state machine, replacing any handler registered
    /// for the same identifier earlier.
    pub fn state(self, state_id: u64, state_impl: H) -> (r: Self)
        ensures
            r@.states == self@.states.insert(state_id, state_impl),
            r@.parents == self@.parents,
            r@.context == self@.context,
    {
        let mut b = self;
        proof {
            lemma_map_of_pairs_push(b.states@, state_id, state_impl);
        }
        b.states.push((state_id, state_impl));
        b
    }

    /// Set the superstate table for hierarchical behavior: each `(state,
    /// parent)` pair names a state's superstate; states that appear in no
    /// pair are roots.
    pub fn superstate_fn(self, superstate_table: Vec<(u64, u64)>) -> (r: Self)
        ensures
            r@.states == self@.states,
            r@.parents == Some(map_of_pairs(superstate_table@)),
            r@.context == self@.context,
    {
        let mut b = self;
        b.superstates = Some(superstate_table);
        b
    }

    /// Build the state machine.
    pub fn build(self) -> (r: StateMachine<CTX, E, H>)
        ensures
            r@.states == self@.states,
            r@.parents == (match self@.parents {
                Some(p) => p,
                None => Map::<u64, u64>::empty(),
            }),
            r@.current is None,
            r@.initial is None,
            r@.context == self@.context,
    {
        StateMachine::new(self.context, self.states, self.superstates)
    }
}

} // verus!
