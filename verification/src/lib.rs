//! A hierarchical state-dispatch engine.
//!
//! The engine holds a set of named states, routes incoming events to the
//! currently active state, delegates unhandled events up a state hierarchy of
//! superstates, and sequences enter/exit lifecycle hooks around every
//! transition.  State identifiers are `u64` values, events and the shared
//! context are arbitrary host types, and the behaviour of every state is
//! supplied through the [`Stateful`] trait.

mod builder;
mod error;
mod fsm;
mod laws;
mod plantuml;
mod registry;

pub use builder::BuilderView;
pub use builder::StateMachineBuilder;
pub use error::ErrorModel;
pub use error::FsmError;
pub use error::FsmResult;
pub use error::result_view;
pub use fsm::MachineView;
pub use fsm::Response;
pub use fsm::STEP_LIMIT;
pub use fsm::StateMachine;
pub use fsm::Stateful;
pub use fsm::current_timeout_spec;
pub use fsm::delegate_spec;
pub use fsm::exit_step;
pub use fsm::init_spec;
pub use fsm::no_superstate_msg;
pub use fsm::process_spec;
pub use fsm::step_limit_msg;
pub use fsm::transition_spec;
pub use laws::lemma_delegate_super_parent_handles;
pub use laws::lemma_delegation_chain_handled;
pub use laws::lemma_delegation_exhausted;
pub use laws::lemma_enter_loop_never_settled;
pub use laws::lemma_handled_preserves_current;
pub use laws::lemma_init_settles;
pub use laws::lemma_invalid_event_preserves_current;
pub use laws::lemma_transition_chain_step;
pub use laws::lemma_transition_handled_settles;
pub use laws::lemma_transition_no_invalid_event;
pub use laws::lemma_transition_ok_settles;
pub use plantuml::collect_states;
pub use plantuml::dec_digit;
pub use plantuml::dec_digits;
pub use plantuml::generate_plantuml;
pub use plantuml::parent_lines;
pub use plantuml::plantuml_header;
pub use plantuml::plantuml_spec;
pub use plantuml::transition_lines;
pub use registry::map_of_pairs;
