//! The dispatch engine: state registration, the enter/exit transition
//! protocol, event delegation along the superstate chain, and the per-state
//! timeout query.
//!
//! State identifiers are `u64` values.  The behaviour of each state is given
//! by an implementation of [`Stateful`]; the engine is verified against the
//! mathematical models that the trait associates with every handler, so each
//! public operation's contract pins its outcome down exactly, whatever the
//! handlers decide.

use vstd::prelude::*;

use crate::error::ErrorModel;
use crate::error::FsmError;
use crate::error::result_view;
use crate::registry::find_key;
use crate::registry::lemma_map_of_pairs_contains;
use crate::registry::lemma_map_of_pairs_last;
use crate::registry::lemma_map_of_pairs_update;
use crate::registry::map_of_pairs;

verus! {

/// Upper bound on the number of iterations a single dispatch is allowed to
/// take, both for chained enter-transitions and for superstate delegation.
/// The superstate relation is not validated for acyclicity, and an enter hook
/// may request transitions without end; rather than spin forever on such a
/// configuration, the engine gives up after this many steps and reports
/// [`FsmError::Custom`] with [`step_limit_msg`].
pub const STEP_LIMIT: u64 = 1000000;

/// Response type for state handlers, indicating how to proceed after handling
/// an event or entering a state.
#[derive(Debug)]
pub enum Response<S> {
    /// The event was handled successfully, no transition needed.
    Handled,
    /// An error occurred, with a message.
    Error(String),
    /// Transition to a new state.
    Transition(S),
    /// Delegate to the superstate (only meaningful from an event hook).
    Super,
}

/// Trait for stateful components in the state machine.
///
/// Each exec hook is bound to a `spec` model of itself: `on_enter` must
/// behave as `enter_spec` says, and so on.  The engine's own contracts are
/// stated over these models, so everything proved about the engine holds for
/// exactly the handler behaviours that implementations establish.
pub trait Stateful<S, CTX, E>: Sized {
    /// Model of [`Stateful::on_enter`]: the updated handler, the updated
    /// context, and the response.  Unless overridden, it models a hook that
    /// changes nothing and answers `Handled`.
    open spec fn enter_spec(self, context: CTX) -> (Self, CTX, Response<S>) {
        (self, context, Response::Handled)
    }

    /// Model of [`Stateful::on_event`]: the updated handler, the updated
    /// context, and the response.  Unless overridden, it models a hook that
    /// changes nothing and answers `Handled`.
    open spec fn event_spec(self, event: E, context: CTX) -> (Self, CTX, Response<S>) {
        (self, context, Response::Handled)
    }

    /// Model of [`Stateful::on_exit`]: the updated handler and the updated
    /// context.  Unless overridden, it models a hook that changes nothing.
    open spec fn exit_spec(self, context: CTX) -> (Self, CTX) {
        (self, context)
    }

    /// Model of [`Stateful::get_timeout`].  Unless overridden, it models a
    /// state with no timeout.
    open spec fn timeout_spec(self, context: CTX) -> Option<u64> {
        None
    }

    /// Called when entering the state.
    fn on_enter(&mut self, context: &mut CTX) -> (r: Response<S>)
        ensures
            (*final(self), *final(context), r) == old(self).enter_spec(*old(context)),
    ;

    /// Called when an event occurs in the state.
    fn on_event(&mut self, event: &E, context: &mut CTX) -> (r: Response<S>)
        ensures
            (*final(self), *final(context), r) == old(self).event_spec(*event, *old(context)),
    ;

    /// Called when exiting the state.
    fn on_exit(&mut self, context: &mut CTX)
        ensures
            (*final(self), *final(context)) == old(self).exit_spec(*old(context)),
    ;

    /// Returns the state's suggested inactivity timeout in seconds, or `None`
    /// for no timeout, recomputed from the context on every call.
    fn get_timeout(&self, context: &CTX) -> (r: Option<u64>)
        ensures
            r == self.timeout_spec(*context),
    ;
}

/// The abstract state of a machine: the registry and superstate tables as
/// finite maps, the current and initial state slots, and the context value.
pub struct MachineView<CTX, H> {
    /// The registered handler of each state.
    pub states: Map<u64, H>,
    /// The superstate of each state that has one.
    pub parents: Map<u64, u64>,
    /// The currently active state, `None` before initialization.
    pub current: Option<u64>,
    /// The shared context value.
    pub context: CTX,
    /// The state that initialization was last asked to enter.
    pub initial: Option<u64>,
}

/// The message reported when a dispatch exceeds [`STEP_LIMIT`].
pub open spec fn step_limit_msg() -> Seq<char> {
    ("dispatch step limit exceeded")@
}

/// The message reported when delegation runs out of superstates.
pub open spec fn no_superstate_msg() -> Seq<char> {
    ("Unhandled event, no superstate available")@
}

/// One exit step of the transition protocol: if a current state exists and is
/// registered, its exit hook runs; otherwise nothing happens.
pub open spec fn exit_step<CTX, E, H: Stateful<u64, CTX, E>>(m: MachineView<CTX, H>) -> MachineView<
    CTX,
    H,
> {
    match m.current {
        Some(c) => if m.states.contains_key(c) {
            let (h2, c2) = m.states[c].exit_spec(m.context);
            MachineView { states: m.states.insert(c, h2), context: c2, ..m }
        } else {
            m
        },
        None => m,
    }
}

/// The transition protocol: exit the current state, make `target` current,
/// run its enter hook, and absorb any further transition the enter hook
/// requests.  `fuel` bounds the number of absorbed transitions; the engine
/// runs it with [`STEP_LIMIT`].
pub open spec fn transition_spec<CTX, E, H: Stateful<u64, CTX, E>>(
    m: MachineView<CTX, H>,
    target: u64,
    fuel: nat,
) -> (MachineView<CTX, H>, Result<(), ErrorModel<u64>>)
    decreases fuel,
{
    if fuel == 0 {
        (m, Err(ErrorModel::Custom(step_limit_msg())))
    } else {
        let m1 = exit_step::<CTX, E, H>(m);
        let m2 = MachineView { current: Some(target), ..m1 };
        if !m2.states.contains_key(target) {
            (m2, Err(ErrorModel::StateNotRegistered(target)))
        } else {
            let (h2, c2, r) = m2.states[target].enter_spec(m2.context);
            let m3 = MachineView { states: m2.states.insert(target, h2), context: c2, ..m2 };
            match r {
                Response::Handled => (m3, Ok(())),
                Response::Transition(next) => transition_spec::<CTX, E, H>(
                    m3,
                    next,
                    (fuel - 1) as nat,
                ),
                Response::Error(msg) => (m3, Err(ErrorModel::StateInvalid(target, msg@))),
                Response::Super => (m3, Err(ErrorModel::OnEnterSuper(target))),
            }
        }
    }
}

/// The delegation protocol: deliver the event to `active`; on `Super` climb
/// to the superstate and deliver the same event again.  `fuel` bounds the
/// climb; the engine runs it with [`STEP_LIMIT`].
pub open spec fn delegate_spec<CTX, E, H: Stateful<u64, CTX, E>>(
    m: MachineView<CTX, H>,
    active: u64,
    event: E,
    fuel: nat,
) -> (MachineView<CTX, H>, Result<(), ErrorModel<u64>>)
    decreases fuel,
{
    if fuel == 0 {
        (m, Err(ErrorModel::Custom(step_limit_msg())))
    } else if !m.states.contains_key(active) {
        (m, Err(ErrorModel::StateNotRegistered(active)))
    } else {
        let (h2, c2, r) = m.states[active].event_spec(event, m.context);
        let m2 = MachineView { states: m.states.insert(active, h2), context: c2, ..m };
        match r {
            Response::Handled => (m2, Ok(())),
            Response::Transition(next) => transition_spec::<CTX, E, H>(
                m2,
                next,
                STEP_LIMIT as nat,
            ),
            Response::Error(msg) => (m2, Err(ErrorModel::InvalidEvent(active, msg@))),
            Response::Super => if m.parents.contains_key(active) {
                delegate_spec::<CTX, E, H>(m2, m.parents[active], event, (fuel - 1) as nat)
            } else {
                (m2, Err(ErrorModel::InvalidEvent(active, no_superstate_msg())))
            },
        }
    }
}

/// The whole of `process_event`: fail if uninitialized, otherwise delegate
/// starting at the current state.
pub open spec fn process_spec<CTX, E, H: Stateful<u64, CTX, E>>(
    m: MachineView<CTX, H>,
    event: E,
) -> (MachineView<CTX, H>, Result<(), ErrorModel<u64>>) {
    match m.current {
        None => (m, Err(ErrorModel::StateMachineNotInitialized)),
        Some(a) => delegate_spec::<CTX, E, H>(m, a, event, STEP_LIMIT as nat),
    }
}

/// The whole of `init`: record the initial state and run the transition
/// protocol towards it.
pub open spec fn init_spec<CTX, E, H: Stateful<u64, CTX, E>>(
    m: MachineView<CTX, H>,
    state: u64,
) -> (MachineView<CTX, H>, Result<(), ErrorModel<u64>>) {
    transition_spec::<CTX, E, H>(
        MachineView { initial: Some(state), ..m },
        state,
        STEP_LIMIT as nat,
    )
}

/// The whole of `get_current_timeout`: the current state's timeout hint, or
/// `None` when the machine is uninitialized or the state is unregistered.
pub open spec fn current_timeout_spec<CTX, E, H: Stateful<u64, CTX, E>>(
    m: MachineView<CTX, H>,
) -> Option<u64> {
    match m.current {
        Some(c) => if m.states.contains_key(c) {
            m.states[c].timeout_spec(m.context)
        } else {
            None
        },
        None => None,
    }
}

/// A hierarchical state machine over a shared context of type `CTX`, events
/// of type `E`, and one handler type `H` implementing [`Stateful`] for all
/// registered states.
pub struct StateMachine<CTX, E, H> {
    states: Vec<(u64, H)>,
    parents: Vec<(u64, u64)>,
    current_state: Option<u64>,
    context: CTX,
    initial_state: Option<u64>,
    events: core::marker::PhantomData<E>,
}

impl<CTX, E, H> View for StateMachine<CTX, E, H> {
    type V = MachineView<CTX, H>;

    closed spec fn view(&self) -> MachineView<CTX, H> {
        MachineView {
            states: map_of_pairs(self.states@),
            parents: map_of_pairs(self.parents@),
            current: self.current_state,
            context: self.context,
            initial: self.initial_state,
        }
    }
}

impl<CTX, E, H: Stateful<u64, CTX, E>> StateMachine<CTX, E, H> {
    /// Create a new state machine with the given context, states, and
    /// optional superstate table of `(state, parent)` pairs.
    pub fn new(
        context: CTX,
        states: Vec<(u64, H)>,
        superstate_table: Option<Vec<(u64, u64)>>,
    ) -> (r: Self)
        ensures
            r@.states == map_of_pairs(states@),
            r@.parents == (match superstate_table {
                Some(t) => map_of_pairs(t@),
                None => Map::<u64, u64>::empty(),
            }),
            r@.current is None,
            r@.initial is None,
            r@.context == context,
    {
        let parents = match superstate_table {
            Some(t) => t,
            None => Vec::new(),
        };
        Self {
            states,
            parents,
            current_state: None,
            context,
            initial_state: None,
            events: core::marker::PhantomData,
        }
    }

    /// Get the current state.
    pub fn current_state(&self) -> (r: Option<u64>)
        ensures
            r == self@.current,
    {
        self.current_state
    }

    /// Get a reference to the context.
    pub fn context(&self) -> (r: &CTX)
        ensures
            *r == self@.context,
    {
        &self.context
    }

    /// Get a mutable reference to the context.
    pub fn context_mut(&mut self) -> (r: &mut CTX)
        ensures
            *r == old(self)@.context,
            final(self)@ == (MachineView { context: *final(r), ..old(self)@ }),
    {
        &mut self.context
    }

    /// Initialize the state machine with an initial state.
    pub fn init(&mut self, state: u64) -> (r: Result<(), FsmError<u64>>)
        ensures
            ({
                let (mv, res) = init_spec::<CTX, E, H>(old(self)@, state);
                final(self)@ == mv && result_view(r) == res
            }),
    {
        self.initial_state = Some(state);
        self.transition_to(state)
    }

    /// Transition to a new state, running the exit hook of the state being
    /// left and the enter hook of each state entered, until an enter hook
    /// settles, fails, or [`STEP_LIMIT`] transitions have been absorbed.
    #[verifier::loop_isolation(false)]
    fn transition_to(&mut self, target: u64) -> (r: Result<(), FsmError<u64>>)
        ensures
            ({
                let (mv, res) = transition_spec::<CTX, E, H>(
                    old(self)@,
                    target,
                    STEP_LIMIT as nat,
                );
                final(self)@ == mv && result_view(r) == res
            }),
    {
        let ghost m0 = self@;
        let mut current_target = target;
        let mut steps: u64 = 0;
        loop
            invariant
                steps <= STEP_LIMIT,
                transition_spec::<CTX, E, H>(m0, target, STEP_LIMIT as nat)
                    == transition_spec::<CTX, E, H>(
                    self@,
                    current_target,
                    (STEP_LIMIT - steps) as nat,
                ),
            decreases STEP_LIMIT - steps,
        {
            if steps == STEP_LIMIT {
                return Err(FsmError::Custom("dispatch step limit exceeded".to_owned()));
            }
            let ghost m_iter = self@;
            let ghost fuel = (STEP_LIMIT - steps) as nat;

            // Exit the current state if it exists and is registered.
            if let Some(cur) = self.current_state {
                proof {
                    lemma_map_of_pairs_contains(self.states@, cur);
                }
                if let Some(i) = find_key(&self.states, cur) {
                    proof {
                        lemma_map_of_pairs_last(self.states@, i as int);
                    }
                    let ghost s_before = self.states@;
                    let entry = &mut self.states[i];
                    entry.1.on_exit(&mut self.context);
                    proof {
                        let (h2, c2) = m_iter.states[cur].exit_spec(m_iter.context);
                        lemma_map_of_pairs_update(s_before, i as int, h2);
                        assert(self@ == exit_step::<CTX, E, H>(m_iter));
                    }
                } else {
                    proof {
                        assert(self@ == exit_step::<CTX, E, H>(m_iter));
                    }
                }
            }

            // Make the target current before entering it.
            self.current_state = Some(current_target);
            let ghost m2 = MachineView {
                current: Some(current_target),
                ..exit_step::<CTX, E, H>(m_iter)
            };
            proof {
                assert(self@ == m2);
                lemma_map_of_pairs_contains(self.states@, current_target);
            }

            // Enter the target.
            match find_key(&self.states, current_target) {
                None => {
                    proof {
                        assert(transition_spec::<CTX, E, H>(m_iter, current_target, fuel) == (
                        m2,
                        Err::<(), ErrorModel<u64>>(ErrorModel::StateNotRegistered(current_target)),
                        ));
                    }
                    return Err(FsmError::StateNotRegistered(current_target));
                }
                Some(i) => {
                    proof {
                        lemma_map_of_pairs_last(self.states@, i as int);
                    }
                    let ghost s_before = self.states@;
                    let entry = &mut self.states[i];
                    let resp = entry.1.on_enter(&mut self.context);
                    proof {
                        let (h2, c2, r) = m2.states[current_target].enter_spec(m2.context);
                        lemma_map_of_pairs_update(s_before, i as int, h2);
                        assert(self@ == (MachineView {
                            states: m2.states.insert(current_target, h2),
                            context: c2,
                            ..m2
                        }));
                    }
                    match resp {
                        Response::Handled => {
                            return Ok(());
                        }
                        Response::Transition(next) => {
                            current_target = next;
                            steps = steps + 1;
                        }
                        Response::Error(e) => {
                            return Err(FsmError::StateInvalid(current_target, e));
                        }
                        Response::Super => {
                            return Err(FsmError::OnEnterSuper(current_target));
                        }
                    }
                }
            }
        }
    }

    /// Process an event: deliver it to the current state, climbing the
    /// superstate chain while handlers delegate, and run the transition
    /// protocol if a handler requests a transition.
    #[verifier::loop_isolation(false)]
    pub fn process_event(&mut self, event: &E) -> (r: Result<(), FsmError<u64>>)
        ensures
            ({
                let (mv, res) = process_spec::<CTX, E, H>(old(self)@, *event);
                final(self)@ == mv && result_view(r) == res
            }),
    {
        let active0 = match self.current_state {
            Some(c) => c,
            None => {
                return Err(FsmError::StateMachineNotInitialized);
            }
        };
        let ghost m0 = self@;
        let mut active = active0;
        let mut steps: u64 = 0;
        loop
            invariant
                steps <= STEP_LIMIT,
                delegate_spec::<CTX, E, H>(m0, active0, *event, STEP_LIMIT as nat)
                    == delegate_spec::<CTX, E, H>(
                    self@,
                    active,
                    *event,
                    (STEP_LIMIT - steps) as nat,
                ),
            decreases STEP_LIMIT - steps,
        {
            if steps == STEP_LIMIT {
                return Err(FsmError::Custom("dispatch step limit exceeded".to_owned()));
            }
            let ghost m_iter = self@;
            proof {
                lemma_map_of_pairs_contains(self.states@, active);
            }
            match find_key(&self.states, active) {
                None => {
                    return Err(FsmError::StateNotRegistered(active));
                }
                Some(i) => {
                    proof {
                        lemma_map_of_pairs_last(self.states@, i as int);
                    }
                    let ghost s_before = self.states@;
                    let entry = &mut self.states[i];
                    let resp = entry.1.on_event(event, &mut self.context);
                    proof {
                        let (h2, c2, r) = m_iter.states[active].event_spec(*event, m_iter.context);
                        lemma_map_of_pairs_update(s_before, i as int, h2);
                        assert(self@ == (MachineView {
                            states: m_iter.states.insert(active, h2),
                            context: c2,
                            ..m_iter
                        }));
                    }
                    match resp {
                        Response::Handled => {
                            return Ok(());
                        }
                        Response::Transition(next) => {
                            return self.transition_to(next);
                        }
                        Response::Error(e) => {
                            return Err(FsmError::InvalidEvent(active, e));
                        }
                        Response::Super => {
                            proof {
                                lemma_map_of_pairs_contains(self.parents@, active);
                            }
                            match find_key(&self.parents, active) {
                                Some(pi) => {
                                    proof {
                                        lemma_map_of_pairs_last(self.parents@, pi as int);
                                    }
                                    active = self.parents[pi].1;
                                    steps = steps + 1;
                                }
                                None => {
                                    return Err(FsmError::InvalidEvent(
                                        active,
                                        "Unhandled event, no superstate available".to_owned(),
                                    ));
                                }
                            }
                        }
                    }
                }
            }
        }
    }

    /// Get the timeout hint of the current state, recomputed from the
    /// current context on every call.
    pub fn get_current_timeout(&self) -> (r: Option<u64>)
        ensures
            r == current_timeout_spec::<CTX, E, H>(self@),
    {
        if let Some(current) = self.current_state {
            proof {
                lemma_map_of_pairs_contains(self.states@, current);
            }
            if let Some(i) = find_key(&self.states, current) {
                proof {
                    lemma_map_of_pairs_last(self.states@, i as int);
                }
                return self.states[i].1.get_timeout(&self.context);
            }
        }
        None
    }
}

} // verus!
