//! The checkout manager's lifecycle decisions.
//!
//! A checkout is the materialized on-disk content of one resolved source.
//! Cloning and fetching are outside work; the outer layer performs them and
//! hands the outcome back as a [`CloneEvent`]. What the library owns — and
//! verifies — is the decision at every step: a `Ready` checkout with
//! matching identity is reused unchanged (the idempotent fast path), an
//! absent or stale one transitions through `Cloning`, a success reaches
//! `Ready`, a failure falls back to `Absent` (never a falsely `Ready`
//! state), and transient failures are retried a bounded number of times
//! before `CloneFailed` surfaces. Content errors are not retried.

use vstd::prelude::*;

use crate::error::CheckoutError;

verus! {

/// How many clone attempts may be made before a transient failure surfaces.
pub const MAX_CLONE_ATTEMPTS: u64 = 3;

/// The lifecycle of one on-disk checkout.
#[derive(Debug, Clone, Copy, PartialEq, Eq, Structural)]
pub enum CheckoutState {
    /// No usable content on disk.
    Absent,
    /// A materialization is in flight.
    Cloning,
    /// Valid content with a matching identity marker.
    Ready,
    /// On-disk content no longer matches the expected identity.
    Stale,
}

/// What the outer layer must do next.
#[derive(Debug, Clone, PartialEq, Eq)]
pub enum Action {
    /// Reuse what is there; no outside work.
    Nothing,
    /// Begin a clone/copy/fetch-and-checkout for this identity.
    StartClone,
    /// Attempt the clone again.
    Retry,
    /// Give up and surface the error.
    Fail { error: CheckoutError },
}

/// The outcome of the clone attempt the outer layer performed; `Idle` when
/// no clone is in flight.
#[derive(Debug, Clone, Copy, PartialEq, Eq, Structural)]
pub enum CloneEvent {
    Idle,
    Succeeded,
    /// A transient failure (connection reset, timeout): retried while the
    /// attempt count stays below the bound.
    FailedTransient,
    /// A content error (reference not found): never retried.
    FailedContent,
    /// The destination is occupied by unrelated content.
    FailedPathOccupied,
}

/// The decision `ensure` takes in one step, as a function of the checkout's
/// state, whether the on-disk identity matches the requested one, the number
/// of attempts already made, and the last external event.
pub open spec fn spec_ensure_step(
    state: CheckoutState,
    identity_matches: bool,
    attempts: u64,
    event: CloneEvent,
) -> (CheckoutState, Action) {
    match state {
        CheckoutState::Ready => if identity_matches {
            (CheckoutState::Ready, Action::Nothing)
        } else {
            (CheckoutState::Cloning, Action::StartClone)
        },
        CheckoutState::Absent => (CheckoutState::Cloning, Action::StartClone),
        CheckoutState::Stale => (CheckoutState::Cloning, Action::StartClone),
        CheckoutState::Cloning => match event {
            CloneEvent::Succeeded => (CheckoutState::Ready, Action::Nothing),
            CloneEvent::FailedTransient => if attempts < MAX_CLONE_ATTEMPTS {
                (CheckoutState::Cloning, Action::Retry)
            } else {
                (CheckoutState::Absent, Action::Fail { error: CheckoutError::CloneFailed })
            },
            CloneEvent::FailedContent => (
                CheckoutState::Absent,
                Action::Fail { error: CheckoutError::CloneFailed },
            ),
            CloneEvent::FailedPathOccupied => (
                CheckoutState::Absent,
                Action::Fail { error: CheckoutError::PathConflict },
            ),
            CloneEvent::Idle => (CheckoutState::Cloning, Action::Retry),
        },
    }
}

/// One step of `ensure`: from the checkout's state and the last external
/// event, the next state and the action the outer layer must perform. An
/// event accompanies exactly an in-flight clone. `Ready` is reached only
/// through a matching identity or a successful clone: no failure leaves a
/// falsely `Ready` state.
pub fn ensure_step(
    state: CheckoutState,
    identity_matches: bool,
    attempts: u64,
    event: CloneEvent,
) -> (r: (CheckoutState, Action))
    requires
        (state is Cloning) <==> !(event is Idle),
    ensures
        r == spec_ensure_step(state, identity_matches, attempts, event),
        (r.0 is Ready) <==> ((state is Ready && identity_matches) || (state is Cloning
            && event is Succeeded)),
{
    match state {
        CheckoutState::Ready => if identity_matches {
            (CheckoutState::Ready, Action::Nothing)
        } else {
            (CheckoutState::Cloning, Action::StartClone)
        },
        CheckoutState::Absent => (CheckoutState::Cloning, Action::StartClone),
        CheckoutState::Stale => (CheckoutState::Cloning, Action::StartClone),
        CheckoutState::Cloning => match event {
            CloneEvent::Succeeded => (CheckoutState::Ready, Action::Nothing),
            CloneEvent::FailedTransient => if attempts < MAX_CLONE_ATTEMPTS {
                (CheckoutState::Cloning, Action::Retry)
            } else {
                (CheckoutState::Absent, Action::Fail { error: CheckoutError::CloneFailed })
            },
            CloneEvent::FailedContent => (
                CheckoutState::Absent,
                Action::Fail { error: CheckoutError::CloneFailed },
            ),
            CloneEvent::FailedPathOccupied => (
                CheckoutState::Absent,
                Action::Fail { error: CheckoutError::PathConflict },
            ),
            CloneEvent::Idle => (CheckoutState::Cloning, Action::Retry),
        },
    }
}

/// `ensure` is idempotent: after a step that makes the checkout `Ready` —
/// the fast path or a successful clone — a further `ensure` for the same
/// identity, with no intervening invalidation, changes nothing and performs
/// no clone.
pub proof fn lemma_ensure_idempotent(
    state: CheckoutState,
    identity_matches: bool,
    attempts: u64,
    event: CloneEvent,
    attempts2: u64,
)
    requires
        spec_ensure_step(state, identity_matches, attempts, event).0 is Ready,
    ensures
        spec_ensure_step(
            spec_ensure_step(state, identity_matches, attempts, event).0,
            true,
            attempts2,
            CloneEvent::Idle,
        ) == ((CheckoutState::Ready, Action::Nothing)),
{
}

} // verus!
