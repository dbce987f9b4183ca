//! The kinds of failure, and what each means for a run.

use vstd::prelude::*;
use crate::builder::{Outcome, OutcomeView};
use crate::colossus::{ActionView, StreamAction};

verus! {

/// Every failure the engine tells apart.
#[derive(Debug, Clone, Copy, PartialEq, Eq, Structural)]
pub enum SyncError {
    /// The local session or manifest is missing or cannot be read.
    ConfigError,
    /// No host could be resolved for the project.
    RoutingError,
    /// A request got no answer.
    TransportError,
    /// The service failed with a 5xx status.
    Retryable,
    /// The service refused the request.
    Rejected,
    /// A local file vanished or cannot be read.
    IOError,
    /// A pushed message cannot be read.
    ParseError,
}

/// The failures that end a run before any sync traffic: without session,
/// manifest or route nothing can be addressed.
pub open spec fn fatal(e: SyncError) -> bool {
    e == SyncError::ConfigError || e == SyncError::RoutingError
}

/// The exit status for a run that ended on `e`: 78 for a configuration
/// failure, 69 where the service cannot be reached or used, 1 for the rest.
pub open spec fn exit_status(e: SyncError) -> i32 {
    match e {
        SyncError::ConfigError => 78,
        SyncError::RoutingError => 69,
        SyncError::TransportError => 69,
        SyncError::Retryable => 69,
        SyncError::Rejected => 1,
        SyncError::IOError => 1,
        SyncError::ParseError => 1,
    }
}

/// The failure an outcome stands for, if it is one.
pub open spec fn outcome_error(o: OutcomeView) -> Option<SyncError> {
    match o {
        OutcomeView::Success => None,
        OutcomeView::Retryable { .. } => Some(SyncError::Retryable),
        OutcomeView::Rejected { .. } => Some(SyncError::Rejected),
        OutcomeView::TransportError(_) => Some(SyncError::TransportError),
    }
}

/// The failure a stream action stands for, if it is one: only a message
/// that cannot be read is.
pub open spec fn action_error(a: ActionView) -> Option<SyncError> {
    match a {
        ActionView::ParseError => Some(SyncError::ParseError),
        _ => None,
    }
}

impl SyncError {
    /// Whether the run has to end on this failure. Every other failure is
    /// reported and the run goes on.
    pub fn is_fatal(self) -> (r: bool)
        ensures
            r == fatal(self),
    {
        match self {
            SyncError::ConfigError => true,
            SyncError::RoutingError => true,
            _ => false,
        }
    }

    /// The exit status for a run that ended on this failure. It is never
    /// zero.
    pub fn exit_code(self) -> (r: i32)
        ensures
            r == exit_status(self),
            r != 0,
    {
        match self {
            SyncError::ConfigError => 78,
            SyncError::RoutingError => 69,
            SyncError::TransportError => 69,
            SyncError::Retryable => 69,
            SyncError::Rejected => 1,
            SyncError::IOError => 1,
            SyncError::ParseError => 1,
        }
    }

    /// The failure a stream action stands for, if it is one.
    pub fn of_action(action: &StreamAction) -> (r: Option<SyncError>)
        ensures
            r == action_error(action@),
    {
        match action {
            StreamAction::ParseError => Some(SyncError::ParseError),
            _ => None,
        }
    }

    /// The failure an outcome stands for, if it is one.
    pub fn of_outcome(outcome: &Outcome) -> (r: Option<SyncError>)
        ensures
            r == outcome_error(outcome@),
    {
        match outcome {
            Outcome::Success => None,
            Outcome::Retryable { .. } => Some(SyncError::Retryable),
            Outcome::Rejected { .. } => Some(SyncError::Rejected),
            Outcome::TransportError(_) => Some(SyncError::TransportError),
        }
    }
}

} // verus!
