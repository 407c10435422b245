//! The life of the worker that runs a runtime.

use crate::session::{fault, Error, Fault};
use vstd::prelude::*;

verus! {

/// How a worker ended, in a form that every waiter can be given.
#[derive(Debug, PartialEq, Eq)]
pub enum LifecycleOutcome {
    Success,
    Shutdown,
    Operation(String),
}

/// The fault that an outcome stands for.
pub open spec fn outcome_fault(outcome: LifecycleOutcome) -> Option<Fault> {
    match outcome {
        LifecycleOutcome::Success => None,
        LifecycleOutcome::Shutdown => Some(Fault::Shutdown),
        LifecycleOutcome::Operation(message) => Some(Fault::Operation(message@)),
    }
}

/// A fault as waiters are told of it: what is neither a shutdown nor a failed operation is
/// reported as a failed operation, in its own words.
pub open spec fn shared_fault(known: Option<Fault>) -> Option<Fault> {
    match known {
        None => None,
        Some(Fault::Shutdown) => Some(Fault::Shutdown),
        Some(Fault::Operation(message)) => Some(Fault::Operation(message)),
        Some(other) => Some(Fault::Operation(other.words())),
    }
}

impl LifecycleOutcome {
    /// The outcome of a worker that ended with a result.
    pub fn from_result(result: Result<(), Error>) -> (r: LifecycleOutcome)
        ensures
            outcome_fault(r) == shared_fault(fault(result)),
    {
        match result {
            Ok(_) => LifecycleOutcome::Success,
            Err(Error::Shutdown) => LifecycleOutcome::Shutdown,
            Err(Error::Operation(message)) => LifecycleOutcome::Operation(message),
            Err(error) => LifecycleOutcome::Operation(error.describe()),
        }
    }

    /// The result that a waiter gets.
    pub fn into_result(self) -> (r: Result<(), Error>)
        ensures
            fault(r) == outcome_fault(self),
    {
        match self {
            LifecycleOutcome::Success => Ok(()),
            LifecycleOutcome::Shutdown => Err(Error::Shutdown),
            LifecycleOutcome::Operation(message) => Err(Error::Operation(message)),
        }
    }

    /// The outcome of stopping a worker: a failed shutdown counts before a failed join.
    pub fn of_stop(shutdown: Result<(), Error>, join: Result<(), Error>) -> (r: LifecycleOutcome)
        ensures
            outcome_fault(r) == shared_fault(
                if shutdown is Err {
                    fault(shutdown)
                } else {
                    fault(join)
                },
            ),
    {
        match shutdown {
            Err(error) => LifecycleOutcome::from_result(Err(error)),
            Ok(_) => LifecycleOutcome::from_result(join),
        }
    }
}

/// What the owner of a worker hears first.
#[derive(Debug, PartialEq, Eq)]
pub enum FirstWord {
    /// The worker is ready.
    Ready,
    /// The worker could not start.
    Failed,
    /// Startup was cancelled, or nobody is left to speak.
    Silence,
}

/// What the owner of a worker does with it.
#[derive(Clone, Copy, Debug, PartialEq, Eq, Structural)]
pub struct WorkerPlan {
    /// Wait until the last owner lets go.
    pub wait_for_owner: bool,
    /// Ask the worker to shut down before it is joined.
    pub request_shutdown: bool,
}

/// Plans the life of a worker. A worker that is ready and wanted is kept until it is let go; one
/// that failed to start has nothing to shut down.
pub fn plan_worker(word: FirstWord, startup_delivered: bool) -> (r: WorkerPlan)
    ensures
        r.wait_for_owner == (word is Ready && startup_delivered),
        r.request_shutdown == !(word is Failed),
{
    match word {
        FirstWord::Ready => WorkerPlan { wait_for_owner: startup_delivered, request_shutdown: true },
        FirstWord::Failed => WorkerPlan { wait_for_owner: false, request_shutdown: false },
        FirstWord::Silence => WorkerPlan { wait_for_owner: false, request_shutdown: true },
    }
}

/// Sharing an outcome twice tells nothing new: what a waiter is told is told on unchanged.
pub proof fn law_shared_outcomes_are_stable(known: Option<Fault>)
    ensures
        shared_fault(shared_fault(known)) == shared_fault(known),
        known is None <==> shared_fault(known) is None,
{
}

/// What waiters are told keeps a shutdown a shutdown and the words of a failed operation, and tells
/// any other fault as a failed operation in its own words; success alone is told as success.
pub proof fn law_waiters_are_told_what_happened(known: Fault)
    ensures
        shared_fault(None) is None,
        known is Shutdown ==> shared_fault(Some(known)) == Some(known),
        known is Operation ==> shared_fault(Some(known)) == Some(known),
        !(known is Shutdown) && !(known is Operation) ==> shared_fault(Some(known)) == Some(
            Fault::Operation(known.words()),
        ),
{
}

} // verus!
