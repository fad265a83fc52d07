//! What is done about each kind of failure.

use crate::consensus::RejectReason;
use crate::fork::ForkOutcome;
use crate::ledger::StoreError;
use crate::sync::{SyncAction, SyncOutcome};
use vstd::prelude::*;

verus! {

/// The kinds of failure that the node tells apart.
#[derive(PartialEq, Eq, Structural, Clone, Copy, Debug)]
pub enum ErrorClass {
    /// A transaction or a block broke a consensus rule.
    ValidationRejected,
    /// The store could not commit.
    StoreFailure,
    /// The tip moved between validation and commit.
    StaleTip,
    /// A peer sent what no honest peer sends.
    PeerMisbehavior,
    /// The pool is full and the fee too low.
    CapacityExceeded,
}

/// What is done about a failure.
#[derive(PartialEq, Eq, Structural, Clone, Copy, Debug)]
pub struct Handling {
    /// The operation is tried again on the fresh tip.
    pub retry: bool,
    /// The operator is told.
    pub surface: bool,
    /// The peer that sent the data may be penalised or is dropped.
    pub penalise_peer: bool,
    /// The node stops rather than go on in an inconsistent state.
    pub halt: bool,
}

/// The kind of a rejection.
pub open spec fn class_of_rejection(reason: RejectReason) -> ErrorClass {
    match reason {
        RejectReason::WrongParent => ErrorClass::StaleTip,
        RejectReason::CapacityExceeded => ErrorClass::CapacityExceeded,
        _ => ErrorClass::ValidationRejected,
    }
}

/// The kind of a failure of the store: a block that was not validated is
/// of the kind of the rule it breaks, and what is wrong with the chain
/// itself is a failure of the store.
pub open spec fn class_of_store_error(error: StoreError) -> ErrorClass {
    match error {
        StoreError::StaleTip => ErrorClass::StaleTip,
        StoreError::NotValidated(reason) => class_of_rejection(reason),
        _ => ErrorClass::StoreFailure,
    }
}

/// The kind of failure that an attempt to switch chains ended in, if it
/// failed: a block that fails validation is the peer's misbehaviour, and a
/// common ancestor that is gone is a stale tip.
pub open spec fn class_of_sync_outcome(outcome: SyncOutcome) -> Option<ErrorClass> {
    match outcome {
        SyncOutcome::Misbehaved(_) => Some(ErrorClass::PeerMisbehavior),
        SyncOutcome::Restart => Some(ErrorClass::StaleTip),
        _ => None,
    }
}

/// What is done about each kind of failure: a rejected validation is never
/// retried and may cost the peer; a failure of the store is told and halts
/// the node; a stale tip is retried and never told; misbehaviour is told and
/// costs the peer its connection; a full pool is reported in the result
/// alone.
pub open spec fn handling_of(class: ErrorClass) -> Handling {
    match class {
        ErrorClass::ValidationRejected => Handling {
            retry: false,
            surface: false,
            penalise_peer: true,
            halt: false,
        },
        ErrorClass::StoreFailure => Handling {
            retry: false,
            surface: true,
            penalise_peer: false,
            halt: true,
        },
        ErrorClass::StaleTip => Handling {
            retry: true,
            surface: false,
            penalise_peer: false,
            halt: false,
        },
        ErrorClass::PeerMisbehavior => Handling {
            retry: false,
            surface: true,
            penalise_peer: true,
            halt: false,
        },
        ErrorClass::CapacityExceeded => Handling {
            retry: false,
            surface: false,
            penalise_peer: false,
            halt: false,
        },
    }
}

/// The kind of a rejection.
pub fn classify_rejection(reason: RejectReason) -> (class: ErrorClass)
    ensures
        class == class_of_rejection(reason),
{
    match reason {
        RejectReason::WrongParent => ErrorClass::StaleTip,
        RejectReason::CapacityExceeded => ErrorClass::CapacityExceeded,
        _ => ErrorClass::ValidationRejected,
    }
}

/// The kind of a failure of the store.
pub fn classify_store_error(error: StoreError) -> (class: ErrorClass)
    ensures
        class == class_of_store_error(error),
{
    match error {
        StoreError::StaleTip => ErrorClass::StaleTip,
        StoreError::NotValidated(reason) => classify_rejection(reason),
        _ => ErrorClass::StoreFailure,
    }
}

/// The kind of failure that an attempt to switch chains ended in, if it
/// failed.
pub fn classify_sync_outcome(outcome: SyncOutcome) -> (class: Option<ErrorClass>)
    ensures
        class == class_of_sync_outcome(outcome),
{
    match outcome {
        SyncOutcome::Misbehaved(_) => Some(ErrorClass::PeerMisbehavior),
        SyncOutcome::Restart => Some(ErrorClass::StaleTip),
        _ => None,
    }
}

/// The kind of failure behind a step of a synchronisation, if it failed: a
/// peer is dropped for misbehaviour.
pub fn classify_sync_action(action: SyncAction) -> (class: Option<ErrorClass>)
    ensures
        class == (if action is DropPeer {
            Some(ErrorClass::PeerMisbehavior)
        } else {
            None
        }),
{
    match action {
        SyncAction::DropPeer => Some(ErrorClass::PeerMisbehavior),
        _ => None,
    }
}

/// The kind of failure that an attempt to put a suffix on the chain ended
/// in, if it failed.
pub fn classify_fork_outcome(outcome: ForkOutcome) -> (class: Option<ErrorClass>)
    ensures
        class == (match outcome {
            ForkOutcome::Invalid(_) => Some(ErrorClass::PeerMisbehavior),
            ForkOutcome::UnknownAncestor => Some(ErrorClass::StaleTip),
            _ => None,
        }),
{
    match outcome {
        ForkOutcome::Invalid(_) => Some(ErrorClass::PeerMisbehavior),
        ForkOutcome::UnknownAncestor => Some(ErrorClass::StaleTip),
        _ => None,
    }
}

/// What is done about a failure of kind `class`.
pub fn handling(class: ErrorClass) -> (how: Handling)
    ensures
        how == handling_of(class),
{
    match class {
        ErrorClass::ValidationRejected => Handling {
            retry: false,
            surface: false,
            penalise_peer: true,
            halt: false,
        },
        ErrorClass::StoreFailure => Handling {
            retry: false,
            surface: true,
            penalise_peer: false,
            halt: true,
        },
        ErrorClass::StaleTip => Handling {
            retry: true,
            surface: false,
            penalise_peer: false,
            halt: false,
        },
        ErrorClass::PeerMisbehavior => Handling {
            retry: false,
            surface: true,
            penalise_peer: true,
            halt: false,
        },
        ErrorClass::CapacityExceeded => Handling {
            retry: false,
            surface: false,
            penalise_peer: false,
            halt: false,
        },
    }
}

} // verus!
