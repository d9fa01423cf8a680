//! General laws of the dispatch engine.
//!
//! Each law is stated over the specification functions that the engine's own
//! contracts use ([`transition_spec`], [`delegate_spec`], [`init_spec`]), so
//! everything proved here carries over to `init` and `process_event`
//! through their `ensures` clauses.

use vstd::prelude::*;

use crate::error::ErrorModel;
use crate::fsm::MachineView;
use crate::fsm::Response;
use crate::fsm::STEP_LIMIT;
use crate::fsm::Stateful;
use crate::fsm::delegate_spec;
use crate::fsm::exit_step;
use crate::fsm::init_spec;
use crate::fsm::no_superstate_msg;
use crate::fsm::transition_spec;

verus! {

/// A successful transition protocol settles the machine: exactly one state is
/// current afterwards and that state is registered.  Whatever the outcome,
/// the superstate table and the recorded initial state are untouched.
pub proof fn lemma_transition_ok_settles<CTX, E, H: Stateful<u64, CTX, E>>(
    m: MachineView<CTX, H>,
    target: u64,
    fuel: nat,
)
    ensures
        ({
            let (m2, res) = transition_spec::<CTX, E, H>(m, target, fuel);
            &&& m2.parents == m.parents
            &&& m2.initial == m.initial
            &&& (res is Ok ==> m2.current is Some)
            &&& (res is Ok ==> match m2.current {
                Some(c) => m2.states.contains_key(c),
                None => true,
            })
        }),
    decreases fuel,
{
    if fuel > 0 {
        let m1 = exit_step::<CTX, E, H>(m);
        let m2 = MachineView { current: Some(target), ..m1 };
        if m2.states.contains_key(target) {
            let (h2, c2, r) = m2.states[target].enter_spec(m2.context);
            let m3 = MachineView { states: m2.states.insert(target, h2), context: c2, ..m2 };
            match r {
                Response::Transition(next) => {
                    lemma_transition_ok_settles::<CTX, E, H>(m3, next, (fuel - 1) as nat);
                }
                _ => {}
            }
        }
    }
}

/// If the target of a transition is registered and its enter hook, run on the
/// context as it stands after the exit hook, answers `Handled`, then the
/// protocol succeeds and settles exactly on the target.
pub proof fn lemma_transition_handled_settles<CTX, E, H: Stateful<u64, CTX, E>>(
    m: MachineView<CTX, H>,
    target: u64,
    fuel: nat,
)
    requires
        fuel >= 1,
        ({
            let m1 = exit_step::<CTX, E, H>(m);
            m1.states.contains_key(target) && m1.states[target].enter_spec(m1.context).2
                is Handled
        }),
    ensures
        ({
            let (m2, res) = transition_spec::<CTX, E, H>(m, target, fuel);
            res is Ok && m2.current == Some(target)
        }),
{
}

/// A transition whose target's enter hook requests a further transition
/// continues the protocol at the requested state: the outcome of the whole
/// chain is the outcome of its tail, run on the machine as the absorbed
/// enter hook left it.
pub proof fn lemma_transition_chain_step<CTX, E, H: Stateful<u64, CTX, E>>(
    m: MachineView<CTX, H>,
    target: u64,
    fuel: nat,
)
    requires
        fuel >= 1,
        ({
            let m1 = exit_step::<CTX, E, H>(m);
            m1.states.contains_key(target) && m1.states[target].enter_spec(m1.context).2
                is Transition
        }),
    ensures
        ({
            let m1 = exit_step::<CTX, E, H>(m);
            let m2 = MachineView { current: Some(target), ..m1 };
            let (h2, c2, r) = m2.states[target].enter_spec(m2.context);
            let m3 = MachineView { states: m2.states.insert(target, h2), context: c2, ..m2 };
            let next = match r {
                Response::Transition(n) => n,
                _ => target,
            };
            transition_spec::<CTX, E, H>(m, target, fuel) == transition_spec::<CTX, E, H>(
                m3,
                next,
                (fuel - 1) as nat,
            )
        }),
{
}

/// Initialization law: on an uninitialized machine whose starting state is
/// registered and whose enter hook answers `Handled`, `init` succeeds and the
/// current state afterwards is exactly the starting state.
pub proof fn lemma_init_settles<CTX, E, H: Stateful<u64, CTX, E>>(m: MachineView<CTX, H>, s0: u64)
    requires
        m.current is None,
        m.states.contains_key(s0),
        m.states[s0].enter_spec(m.context).2 is Handled,
    ensures
        ({
            let (m2, res) = init_spec::<CTX, E, H>(m, s0);
            res is Ok && m2.current == Some(s0)
        }),
{
    let mi = MachineView { initial: Some(s0), ..m };
    lemma_transition_handled_settles::<CTX, E, H>(mi, s0, STEP_LIMIT as nat);
}

/// `Handled` idempotence: an event that the active state answers with
/// `Handled` never changes the current state; only that state's handler and
/// the context are updated.
pub proof fn lemma_handled_preserves_current<CTX, E, H: Stateful<u64, CTX, E>>(
    m: MachineView<CTX, H>,
    a: u64,
    ev: E,
    fuel: nat,
)
    requires
        fuel >= 1,
        m.states.contains_key(a),
        m.states[a].event_spec(ev, m.context).2 is Handled,
    ensures
        ({
            let (m2, res) = delegate_spec::<CTX, E, H>(m, a, ev, fuel);
            let (h2, c2, r) = m.states[a].event_spec(ev, m.context);
            res is Ok && m2 == (MachineView { states: m.states.insert(a, h2), context: c2, ..m })
                && m2.current == m.current
        }),
{
}

/// The transition protocol never reports `InvalidEvent`: that error kind
/// belongs to event delegation alone.
pub proof fn lemma_transition_no_invalid_event<CTX, E, H: Stateful<u64, CTX, E>>(
    m: MachineView<CTX, H>,
    target: u64,
    fuel: nat,
)
    ensures
        ({
            let (m2, res) = transition_spec::<CTX, E, H>(m, target, fuel);
            match res {
                Err(ErrorModel::InvalidEvent(_, _)) => false,
                _ => true,
            }
        }),
    decreases fuel,
{
    if fuel > 0 {
        let m1 = exit_step::<CTX, E, H>(m);
        let m2 = MachineView { current: Some(target), ..m1 };
        if m2.states.contains_key(target) {
            let (h2, c2, r) = m2.states[target].enter_spec(m2.context);
            let m3 = MachineView { states: m2.states.insert(target, h2), context: c2, ..m2 };
            match r {
                Response::Transition(next) => {
                    lemma_transition_no_invalid_event::<CTX, E, H>(m3, next, (fuel - 1) as nat);
                }
                _ => {}
            }
        }
    }
}

/// An event that is rejected—because a handler in the chain answered
/// `Error`, or because delegation ran out of superstates—leaves the current
/// state exactly as it was before the call.
pub proof fn lemma_invalid_event_preserves_current<CTX, E, H: Stateful<u64, CTX, E>>(
    m: MachineView<CTX, H>,
    a: u64,
    ev: E,
    fuel: nat,
)
    ensures
        ({
            let (m2, res) = delegate_spec::<CTX, E, H>(m, a, ev, fuel);
            match res {
                Err(ErrorModel::InvalidEvent(_, _)) => m2.current == m.current,
                _ => true,
            }
        }),
    decreases fuel,
{
    if fuel > 0 && m.states.contains_key(a) {
        let (h2, c2, r) = m.states[a].event_spec(ev, m.context);
        let m2 = MachineView { states: m.states.insert(a, h2), context: c2, ..m };
        match r {
            Response::Transition(next) => {
                lemma_transition_no_invalid_event::<CTX, E, H>(m2, next, STEP_LIMIT as nat);
            }
            Response::Super => {
                if m.parents.contains_key(a) {
                    lemma_invalid_event_preserves_current::<CTX, E, H>(
                        m2,
                        m.parents[a],
                        ev,
                        (fuel - 1) as nat,
                    );
                }
            }
            _ => {}
        }
    }
}

/// Delegation correctness: if state `a` delegates the event upward, `b` is
/// its superstate, and `b`'s handler—run on the context as `a`'s handler
/// left it—answers `Handled`, then processing succeeds, the current state is
/// unchanged, and the context mutations of both handlers are visible, in
/// order.
pub proof fn lemma_delegate_super_parent_handles<CTX, E, H: Stateful<u64, CTX, E>>(
    m: MachineView<CTX, H>,
    a: u64,
    b: u64,
    ev: E,
    fuel: nat,
)
    requires
        fuel >= 2,
        a != b,
        m.states.contains_key(a),
        m.states.contains_key(b),
        m.parents.contains_key(a),
        m.parents[a] == b,
        m.states[a].event_spec(ev, m.context).2 is Super,
        ({
            let (ha2, c1, ra) = m.states[a].event_spec(ev, m.context);
            m.states[b].event_spec(ev, c1).2 is Handled
        }),
    ensures
        ({
            let (ha2, c1, ra) = m.states[a].event_spec(ev, m.context);
            let (hb2, c2, rb) = m.states[b].event_spec(ev, c1);
            delegate_spec::<CTX, E, H>(m, a, ev, fuel) == (
                MachineView { states: m.states.insert(a, ha2).insert(b, hb2), context: c2, ..m },
                Ok::<(), ErrorModel<u64>>(()),
            )
        }),
{
    let (ha2, c1, ra) = m.states[a].event_spec(ev, m.context);
    let m2 = MachineView { states: m.states.insert(a, ha2), context: c1, ..m };
    let (hb2, c2, rb) = m2.states[b].event_spec(ev, m2.context);
    assert(m2.states[b] == m.states[b]);
    assert(delegate_spec::<CTX, E, H>(m, a, ev, fuel) == delegate_spec::<CTX, E, H>(
        m2,
        b,
        ev,
        (fuel - 1) as nat,
    ));
    assert(delegate_spec::<CTX, E, H>(m2, b, ev, (fuel - 1) as nat) == (
        MachineView { states: m2.states.insert(b, hb2), context: c2, ..m2 },
        Ok::<(), ErrorModel<u64>>(()),
    ));
}

/// Delegation chains that end in `Handled` never change the current state:
/// if the event climbs a chain of states that all delegate it upward until
/// its top handles it, processing succeeds and the current state is exactly
/// what it was before the call.
pub proof fn lemma_delegation_chain_handled<CTX, E, H: Stateful<u64, CTX, E>>(
    m: MachineView<CTX, H>,
    chain: Seq<u64>,
    ev: E,
    fuel: nat,
)
    requires
        1 <= chain.len() <= fuel,
        forall|i: int, j: int| 0 <= i < j < chain.len() ==> chain[i] != chain[j],
        forall|i: int| 0 <= i < chain.len() ==> m.states.contains_key(#[trigger] chain[i]),
        forall|i: int, c: CTX|
            0 <= i < chain.len() - 1 ==> (#[trigger] m.states[chain[i]].event_spec(ev, c)).2
                is Super,
        forall|c: CTX| (#[trigger] m.states[chain.last()].event_spec(ev, c)).2 is Handled,
        forall|i: int|
            0 <= i < chain.len() - 1 ==> m.parents.contains_key(#[trigger] chain[i])
                && m.parents[chain[i]] == chain[i + 1],
    ensures
        ({
            let (m2, res) = delegate_spec::<CTX, E, H>(m, chain[0], ev, fuel);
            &&& res is Ok
            &&& m2.current == m.current
            &&& m2.parents == m.parents
            &&& m2.states.dom() == m.states.dom()
        }),
    decreases chain.len(),
{
    let a = chain[0];
    let (h2, c2, r) = m.states[a].event_spec(ev, m.context);
    let m2 = MachineView { states: m.states.insert(a, h2), context: c2, ..m };
    assert(m2.states.dom() =~= m.states.dom());
    if chain.len() == 1 {
        assert(chain.last() == a);
        assert(m.states[chain.last()].event_spec(ev, m.context).2 is Handled);
    } else {
        assert(m.states[chain[0]].event_spec(ev, m.context).2 is Super);
        let rest = chain.subrange(1, chain.len() as int);
        assert(m.parents.contains_key(chain[0]) && m.parents[chain[0]] == chain[1]);
        assert forall|i: int, j: int| 0 <= i < j < rest.len() implies rest[i] != rest[j] by {
            assert(rest[i] == chain[i + 1] && rest[j] == chain[j + 1]);
        }
        assert forall|i: int| 0 <= i < rest.len() implies m2.states.contains_key(
            #[trigger] rest[i],
        ) by {
            assert(rest[i] == chain[i + 1]);
        }
        assert forall|i: int, c: CTX|
            0 <= i < rest.len() - 1 implies (#[trigger] m2.states[rest[i]].event_spec(ev, c)).2
            is Super by {
            assert(rest[i] == chain[i + 1]);
            assert(chain[i + 1] != a);
            assert(m2.states[rest[i]] == m.states[chain[i + 1]]);
            assert(m.states[chain[i + 1]].event_spec(ev, c).2 is Super);
        }
        assert(rest.last() == chain.last());
        assert(chain.last() != a);
        assert forall|c: CTX| (#[trigger] m2.states[rest.last()].event_spec(ev, c)).2
            is Handled by {
            assert(m2.states[rest.last()] == m.states[chain.last()]);
            assert(m.states[chain.last()].event_spec(ev, c).2 is Handled);
        }
        assert forall|i: int| 0 <= i < rest.len() - 1 implies m2.parents.contains_key(
            #[trigger] rest[i],
        ) && m2.parents[rest[i]] == rest[i + 1] by {
            assert(rest[i] == chain[i + 1] && rest[i + 1] == chain[i + 2]);
            assert(m.parents.contains_key(chain[i + 1]) && m.parents[chain[i + 1]] == chain[i
                + 2]);
        }
        lemma_delegation_chain_handled::<CTX, E, H>(m2, rest, ev, (fuel - 1) as nat);
    }
}

/// Exhausted delegation: if the event climbs a chain of states that all
/// delegate it upward and the chain's top has no superstate, the result is
/// `InvalidEvent` naming the topmost state reached, not the state the climb
/// started from, and the current state is unchanged.
pub proof fn lemma_delegation_exhausted<CTX, E, H: Stateful<u64, CTX, E>>(
    m: MachineView<CTX, H>,
    chain: Seq<u64>,
    ev: E,
    fuel: nat,
)
    requires
        1 <= chain.len() <= fuel,
        forall|i: int, j: int| 0 <= i < j < chain.len() ==> chain[i] != chain[j],
        forall|i: int| 0 <= i < chain.len() ==> m.states.contains_key(#[trigger] chain[i]),
        forall|i: int, c: CTX|
            0 <= i < chain.len() ==> (#[trigger] m.states[chain[i]].event_spec(ev, c)).2
                is Super,
        forall|i: int|
            0 <= i < chain.len() - 1 ==> m.parents.contains_key(#[trigger] chain[i])
                && m.parents[chain[i]] == chain[i + 1],
        !m.parents.contains_key(chain.last()),
    ensures
        ({
            let (m2, res) = delegate_spec::<CTX, E, H>(m, chain[0], ev, fuel);
            &&& res == Err::<(), ErrorModel<u64>>(
                ErrorModel::InvalidEvent(chain.last(), no_superstate_msg()),
            )
            &&& m2.current == m.current
            &&& m2.states.dom() == m.states.dom()
        }),
    decreases chain.len(),
{
    let a = chain[0];
    let (h2, c2, r) = m.states[a].event_spec(ev, m.context);
    assert(m.states[chain[0]].event_spec(ev, m.context).2 is Super);
    let m2 = MachineView { states: m.states.insert(a, h2), context: c2, ..m };
    assert(m2.states.dom() =~= m.states.dom());
    if chain.len() == 1 {
        assert(chain.last() == a);
    } else {
        let rest = chain.subrange(1, chain.len() as int);
        assert(m.parents.contains_key(chain[0]) && m.parents[chain[0]] == chain[1]);
        assert forall|i: int, j: int| 0 <= i < j < rest.len() implies rest[i] != rest[j] by {
            assert(rest[i] == chain[i + 1] && rest[j] == chain[j + 1]);
        }
        assert forall|i: int| 0 <= i < rest.len() implies m2.states.contains_key(
            #[trigger] rest[i],
        ) by {
            assert(rest[i] == chain[i + 1]);
        }
        assert forall|i: int, c: CTX|
            0 <= i < rest.len() implies (#[trigger] m2.states[rest[i]].event_spec(ev, c)).2
            is Super by {
            assert(rest[i] == chain[i + 1]);
            assert(chain[i + 1] != a);
            assert(m2.states[rest[i]] == m.states[chain[i + 1]]);
            assert(m.states[chain[i + 1]].event_spec(ev, c).2 is Super);
        }
        assert forall|i: int| 0 <= i < rest.len() - 1 implies m2.parents.contains_key(
            #[trigger] rest[i],
        ) && m2.parents[rest[i]] == rest[i + 1] by {
            assert(rest[i] == chain[i + 1] && rest[i + 1] == chain[i + 2]);
            assert(m.parents.contains_key(chain[i + 1]) && m.parents[chain[i + 1]] == chain[i
                + 2]);
        }
        assert(rest.last() == chain.last());
        lemma_delegation_exhausted::<CTX, E, H>(m2, rest, ev, (fuel - 1) as nat);
    }
}

/// Enter-triggered re-transition: a state whose enter hook always requests a
/// further transition is never the settled current state of a successful
/// transition protocol.  The hypothesis is an invariant `inv` of that state's
/// handler: it holds of the registered handler, it survives the state's own
/// exit and enter hooks, and it forces every enter response to be a
/// transition.
pub proof fn lemma_enter_loop_never_settled<CTX, E, H: Stateful<u64, CTX, E>>(
    m: MachineView<CTX, H>,
    target: u64,
    v: u64,
    fuel: nat,
    inv: spec_fn(H) -> bool,
)
    requires
        m.states.contains_key(v) ==> inv(m.states[v]),
        forall|h: H, c: CTX| inv(h) ==> inv((#[trigger] h.exit_spec(c)).0),
        forall|h: H, c: CTX|
            inv(h) ==> ({
                let (h2, c2, r) = #[trigger] h.enter_spec(c);
                inv(h2) && r is Transition
            }),
    ensures
        ({
            let (m2, res) = transition_spec::<CTX, E, H>(m, target, fuel);
            res is Ok ==> m2.current != Some(v)
        }),
    decreases fuel,
{
    if fuel > 0 {
        let m1 = exit_step::<CTX, E, H>(m);
        let m2 = MachineView { current: Some(target), ..m1 };
        if m2.states.contains_key(target) {
            let (h2, c2, r) = m2.states[target].enter_spec(m2.context);
            let m3 = MachineView { states: m2.states.insert(target, h2), context: c2, ..m2 };
            match r {
                Response::Transition(next) => {
                    lemma_enter_loop_never_settled::<CTX, E, H>(m3, next, v, (fuel - 1) as nat, inv);
                }
                _ => {}
            }
        }
    }
}

} // verus!
