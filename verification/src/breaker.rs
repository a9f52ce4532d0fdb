//! The per-source circuit breaker: a two-state switch driven by backward
//! flowing instructions.

use vstd::prelude::*;

verus! {

/// A circuit-breaker instruction carried by a sink's reply.
#[derive(Clone, Copy, Debug, PartialEq, Eq, Structural)]
pub enum CbAction {
    /// No instruction.
    Nothing,
    /// Suspend pulling (also spelled "trigger").
    Close,
    /// Resume pulling (also spelled "restore").
    Open,
}

/// Whether a source may pull.
#[derive(Clone, Copy, Debug, PartialEq, Eq, Structural)]
pub enum CircuitBreaker {
    /// Pulls are permitted. This is the initial state.
    Closed,
    /// Pulls are suspended.
    Open,
}

impl CircuitBreaker {
    /// The state a breaker is in after receiving `action` in state `self`.
    pub open spec fn spec_on_action(self, action: CbAction) -> CircuitBreaker {
        match action {
            CbAction::Close => CircuitBreaker::Open,
            CbAction::Open => CircuitBreaker::Closed,
            CbAction::Nothing => self,
        }
    }

    /// Whether the scheduler may pull in this state.
    pub open spec fn spec_may_pull(self) -> bool {
        self == CircuitBreaker::Closed
    }

    /// A fresh breaker: pulling is allowed.
    pub fn new() -> (cb: CircuitBreaker)
        ensures
            cb == CircuitBreaker::Closed,
    {
        CircuitBreaker::Closed
    }

    /// Applies one instruction.
    pub fn on_action(self, action: CbAction) -> (next: CircuitBreaker)
        ensures
            next == self.spec_on_action(action),
    {
        match action {
            CbAction::Close => CircuitBreaker::Open,
            CbAction::Open => CircuitBreaker::Closed,
            CbAction::Nothing => self,
        }
    }

    /// Whether the scheduler may pull in this state.
    pub fn may_pull(self) -> (ok: bool)
        ensures
            ok == self.spec_may_pull(),
    {
        match self {
            CircuitBreaker::Closed => true,
            CircuitBreaker::Open => false,
        }
    }
}

} // verus!
