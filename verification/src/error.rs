//! Error types for the state machine.

use vstd::prelude::*;

verus! {

/// Result type alias for state machine operations.
pub type FsmResult<T, S> = Result<T, FsmError<S>>;

/// Errors that can occur during state machine operations.
#[derive(Debug)]
pub enum FsmError<S> {
    /// The state machine has not been initialized yet.
    StateMachineNotInitialized,
    /// A state's enter hook returned an error while it was being entered.
    StateInvalid(S, String),
    /// An event could not be handled by the current state or its superstates.
    InvalidEvent(S, String),
    /// A state was referenced that was never registered.
    StateNotRegistered(S),
    /// A state's enter hook returned `Super`, which is never valid.
    OnEnterSuper(S),
    /// Generic error kind for conditions outside the taxonomy above.
    Custom(String),
}

/// The mathematical shape of an [`FsmError`]: the same taxonomy with every
/// message abstracted to its character sequence.  Contracts speak of this
/// form so that they can pin down messages exactly.
pub enum ErrorModel<S> {
    /// Mirror of [`FsmError::StateMachineNotInitialized`].
    StateMachineNotInitialized,
    /// Mirror of [`FsmError::StateInvalid`].
    StateInvalid(S, Seq<char>),
    /// Mirror of [`FsmError::InvalidEvent`].
    InvalidEvent(S, Seq<char>),
    /// Mirror of [`FsmError::StateNotRegistered`].
    StateNotRegistered(S),
    /// Mirror of [`FsmError::OnEnterSuper`].
    OnEnterSuper(S),
    /// Mirror of [`FsmError::Custom`].
    Custom(Seq<char>),
}

impl<S> View for FsmError<S> {
    type V = ErrorModel<S>;

    open spec fn view(&self) -> ErrorModel<S> {
        match self {
            FsmError::StateMachineNotInitialized => ErrorModel::StateMachineNotInitialized,
            FsmError::StateInvalid(s, m) => ErrorModel::StateInvalid(*s, m@),
            FsmError::InvalidEvent(s, m) => ErrorModel::InvalidEvent(*s, m@),
            FsmError::StateNotRegistered(s) => ErrorModel::StateNotRegistered(*s),
            FsmError::OnEnterSuper(s) => ErrorModel::OnEnterSuper(*s),
            FsmError::Custom(m) => ErrorModel::Custom(m@),
        }
    }
}

/// The abstraction of a whole call result: `Ok` stays `Ok`, an error is
/// replaced by its [`ErrorModel`].
pub open spec fn result_view<S>(r: Result<(), FsmError<S>>) -> Result<(), ErrorModel<S>> {
    match r {
        Ok(()) => Ok(()),
        Err(e) => Err(e@),
    }
}

} // verus!
