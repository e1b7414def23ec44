//! The error kinds of the scheduling core.

use vstd::prelude::*;

verus! {

/// Why an operation of the core was refused.
#[derive(Debug, Clone, Copy, PartialEq, Eq, Hash, Structural)]
pub enum SchedulerError {
    /// The waiting area already holds as many requests as it may.
    WaitingAreaFull,
    /// The pile's queue already holds as many requests as it may.
    PileQueueFull,
    /// No request, or no pile, goes by the given identifier.
    NotFound,
    /// The request is charging, or in a state that admits no such change.
    CannotModify,
    /// The text names no charging mode.
    InvalidMode,
    /// The amount of energy is not positive.
    InvalidAmount,
    /// The interval does not end after it starts.
    InvalidInterval,
    /// The pile is in a state that does not admit the operation.
    PileUnavailable,
    /// The scheduler is already running.
    AlreadyRunning,
    /// The scheduler is not running.
    NotRunning,
    /// The persistence collaborator failed.
    PersistenceError,
    /// A tracked request already carries the identifier.
    DuplicateRequest,
    /// The queue-number counter has reached its largest value.
    CounterExhausted,
}

impl SchedulerError {
    /// A short English sentence for the error, for logs and API responses.
    pub fn message(&self) -> (s: String)
        ensures
            s@ == self.message_text()@,
    {
        String::from_str(self.text())
    }

    /// The text of `message`, as a literal.
    pub open spec fn message_text(&self) -> &'static str {
        match self {
            SchedulerError::WaitingAreaFull => "waiting area is full",
            SchedulerError::PileQueueFull => "pile queue is full",
            SchedulerError::NotFound => "not found",
            SchedulerError::CannotModify => "request cannot be modified",
            SchedulerError::InvalidMode => "invalid charging mode",
            SchedulerError::InvalidAmount => "invalid charging amount",
            SchedulerError::InvalidInterval => "invalid charging interval",
            SchedulerError::PileUnavailable => "pile is unavailable",
            SchedulerError::AlreadyRunning => "scheduler is already running",
            SchedulerError::NotRunning => "scheduler is not running",
            SchedulerError::PersistenceError => "persistence failed",
            SchedulerError::DuplicateRequest => "request is already tracked",
            SchedulerError::CounterExhausted => "queue numbers are exhausted",
        }
    }

    fn text(&self) -> (s: &'static str)
        ensures
            s@ == self.message_text()@,
    {
        match self {
            SchedulerError::WaitingAreaFull => "waiting area is full",
            SchedulerError::PileQueueFull => "pile queue is full",
            SchedulerError::NotFound => "not found",
            SchedulerError::CannotModify => "request cannot be modified",
            SchedulerError::InvalidMode => "invalid charging mode",
            SchedulerError::InvalidAmount => "invalid charging amount",
            SchedulerError::InvalidInterval => "invalid charging interval",
            SchedulerError::PileUnavailable => "pile is unavailable",
            SchedulerError::AlreadyRunning => "scheduler is already running",
            SchedulerError::NotRunning => "scheduler is not running",
            SchedulerError::PersistenceError => "persistence failed",
            SchedulerError::DuplicateRequest => "request is already tracked",
            SchedulerError::CounterExhausted => "queue numbers are exhausted",
        }
    }
}

} // verus!
