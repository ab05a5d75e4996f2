//! How a staged copy replaces an installed one: the existing copy is moved
//! aside, the staged copy moved into place, and the old copy removed, or put
//! back when the staged copy could not be moved.
use vstd::prelude::*;

use crate::text::{concat2, concat4};

verus! {

/// Which step of a replacement failed.
#[derive(Debug, Clone, Copy, PartialEq, Eq, Structural)]
pub enum SwapFailure {
    /// Moving the existing copy aside.
    MoveAside,
    /// Moving the staged copy into place.
    Place,
    /// Removing the old copy once the new one was in place.
    RemoveBackup,
}

/// Where a replacement stands.
#[derive(Debug, Clone, Copy, PartialEq, Eq, Structural)]
pub enum SwapState {
    /// Nothing done yet.
    Start,
    /// The existing copy is being moved aside.
    MovingAside,
    /// The staged copy is being moved into place; `had_existing` tells
    /// whether an old copy was moved aside first.
    Placing { had_existing: bool },
    /// The old copy is being put back.
    Restoring,
    /// The old copy is being removed.
    RemovingBackup,
    /// The staged copy is in place.
    Finished,
    /// The replacement failed at the given step.
    Failed(SwapFailure),
}

/// What happened to the last step.
#[derive(Debug, Clone, Copy, PartialEq, Eq, Structural)]
pub enum SwapEvent {
    /// The replacement begins; the destination exists or not.
    Begin { destination_exists: bool },
    /// The last action worked.
    Done,
    /// The last action failed; whether the moved-aside copy still exists.
    Error { backup_exists: bool },
}

/// The file-system action to perform next.
#[derive(Debug, Clone, Copy, PartialEq, Eq, Structural)]
pub enum SwapAction {
    MoveAside,
    PlaceStaged,
    RestoreBackup,
    RemoveBackup,
    Stop,
}

/// The next state and action of a replacement after `event` in `state`.
/// An event that does not belong to the state stops the replacement where
/// it is.
pub open spec fn swap_next(state: SwapState, event: SwapEvent) -> (SwapState, SwapAction) {
    match (state, event) {
        (SwapState::Start, SwapEvent::Begin { destination_exists }) => if destination_exists {
            (SwapState::MovingAside, SwapAction::MoveAside)
        } else {
            (SwapState::Placing { had_existing: false }, SwapAction::PlaceStaged)
        },
        (SwapState::MovingAside, SwapEvent::Done) => (
            SwapState::Placing { had_existing: true },
            SwapAction::PlaceStaged,
        ),
        (SwapState::MovingAside, SwapEvent::Error { .. }) => (
            SwapState::Failed(SwapFailure::MoveAside),
            SwapAction::Stop,
        ),
        (SwapState::Placing { had_existing }, SwapEvent::Done) => if had_existing {
            (SwapState::RemovingBackup, SwapAction::RemoveBackup)
        } else {
            (SwapState::Finished, SwapAction::Stop)
        },
        (SwapState::Placing { had_existing }, SwapEvent::Error { backup_exists }) => if had_existing
            && backup_exists {
            (SwapState::Restoring, SwapAction::RestoreBackup)
        } else {
            (SwapState::Failed(SwapFailure::Place), SwapAction::Stop)
        },
        (SwapState::Restoring, SwapEvent::Done) => (
            SwapState::Failed(SwapFailure::Place),
            SwapAction::Stop,
        ),
        (SwapState::Restoring, SwapEvent::Error { .. }) => (
            SwapState::Failed(SwapFailure::Place),
            SwapAction::Stop,
        ),
        (SwapState::RemovingBackup, SwapEvent::Done) => (SwapState::Finished, SwapAction::Stop),
        (SwapState::RemovingBackup, SwapEvent::Error { .. }) => (
            SwapState::Failed(SwapFailure::RemoveBackup),
            SwapAction::Stop,
        ),
        _ => (state, SwapAction::Stop),
    }
}

/// Decides the next step of a replacement.
pub fn swap_step(state: SwapState, event: SwapEvent) -> (r: (SwapState, SwapAction))
    ensures
        r == swap_next(state, event),
{
    match (state, event) {
        (SwapState::Start, SwapEvent::Begin { destination_exists }) => if destination_exists {
            (SwapState::MovingAside, SwapAction::MoveAside)
        } else {
            (SwapState::Placing { had_existing: false }, SwapAction::PlaceStaged)
        },
        (SwapState::MovingAside, SwapEvent::Done) => (
            SwapState::Placing { had_existing: true },
            SwapAction::PlaceStaged,
        ),
        (SwapState::MovingAside, SwapEvent::Error { .. }) => (
            SwapState::Failed(SwapFailure::MoveAside),
            SwapAction::Stop,
        ),
        (SwapState::Placing { had_existing }, SwapEvent::Done) => if had_existing {
            (SwapState::RemovingBackup, SwapAction::RemoveBackup)
        } else {
            (SwapState::Finished, SwapAction::Stop)
        },
        (SwapState::Placing { had_existing }, SwapEvent::Error { backup_exists }) => if had_existing
            && backup_exists {
            (SwapState::Restoring, SwapAction::RestoreBackup)
        } else {
            (SwapState::Failed(SwapFailure::Place), SwapAction::Stop)
        },
        (SwapState::Restoring, SwapEvent::Done) => (
            SwapState::Failed(SwapFailure::Place),
            SwapAction::Stop,
        ),
        (SwapState::Restoring, SwapEvent::Error { .. }) => (
            SwapState::Failed(SwapFailure::Place),
            SwapAction::Stop,
        ),
        (SwapState::RemovingBackup, SwapEvent::Done) => (SwapState::Finished, SwapAction::Stop),
        (SwapState::RemovingBackup, SwapEvent::Error { .. }) => (
            SwapState::Failed(SwapFailure::RemoveBackup),
            SwapAction::Stop,
        ),
        _ => (state, SwapAction::Stop),
    }
}

/// Whether a replacement has ended.
pub open spec fn swap_over(state: SwapState) -> bool {
    state is Finished || state is Failed
}

/// The existing copy is never dropped before the new one is in place: the
/// old copy is removed only after the staged copy was moved into place, and
/// when moving it fails while the old copy is still aside, the old copy is
/// put back.
pub proof fn lemma_swap_keeps_old_copy(state: SwapState, event: SwapEvent)
    ensures
        swap_next(state, event).1 == SwapAction::RemoveBackup ==> state == (SwapState::Placing {
            had_existing: true,
        }) && event == SwapEvent::Done,
        state == (SwapState::Placing { had_existing: true }) && event == (SwapEvent::Error {
            backup_exists: true,
        }) ==> swap_next(state, event).1 == SwapAction::RestoreBackup,
        swap_next(state, event).1 == SwapAction::Stop ==> swap_over(swap_next(state, event).0) || swap_next(
            state,
            event,
        ).0 == state,
{
}

/// The message of a failed replacement step, for a directory (`is_dir`) or
/// a file.
pub open spec fn swap_failure_text(
    failure: SwapFailure,
    is_dir: bool,
    staged: Seq<char>,
    destination: Seq<char>,
    backup: Seq<char>,
) -> Seq<char> {
    let what = if is_dir {
        "directory "@
    } else {
        "file "@
    };
    match failure {
        SwapFailure::MoveAside => "failed to move existing "@ + what + destination + " to "@ + backup,
        SwapFailure::Place => "failed to move staged "@ + what + staged + " to "@ + destination,
        SwapFailure::RemoveBackup => "failed to remove "@ + what + backup,
    }
}

/// Writes the message of a failed replacement step.
pub fn swap_failure_message(failure: SwapFailure, is_dir: bool, staged: &str, destination: &str, backup: &str) -> (r:
    String)
    ensures
        r@ == swap_failure_text(failure, is_dir, staged@, destination@, backup@),
{
    let what = if is_dir {
        "directory "
    } else {
        "file "
    };
    match failure {
        SwapFailure::MoveAside => {
            let mut r = concat4("failed to move existing ", what, destination, " to ");
            r.append(backup);
            r
        },
        SwapFailure::Place => {
            let mut r = concat4("failed to move staged ", what, staged, " to ");
            r.append(destination);
            r
        },
        SwapFailure::RemoveBackup => {
            let mut r = concat2("failed to remove ", what);
            r.append(backup);
            r
        },
    }
}

} // verus!
