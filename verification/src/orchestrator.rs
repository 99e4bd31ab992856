//! The restore orchestrator's state machine: the destructive steps of an
//! import run in a fixed order, and the data directory is never touched
//! unless validation has already succeeded.
//!
//! The caller drives the machine: it performs the action its phase calls
//! for (close the database handle, validate the upload, wipe, extract,
//! reload the configuration, probe a fresh database connection, mint a
//! session token) and reports whether the step succeeded. Only the outcome
//! of `Validating` and `Extracting` steers the machine: a failed disconnect,
//! reload, reconnect, or token mint is logged by the caller and absorbed.

use vstd::prelude::*;

verus! {

/// The phases of one restore run.
#[derive(Clone, Copy, Debug, PartialEq, Eq, Structural)]
pub enum RestorePhase {
    /// Nothing has happened yet.
    Idle,
    /// Closing the live database handle before touching its file.
    Disconnecting,
    /// Reading the upload as tar, then as gzip-wrapped tar.
    Validating,
    /// Deleting the unprotected top-level entries of the data directory.
    Wiping,
    /// Writing the unprotected members of the archive.
    Extracting,
    /// Re-reading the protected configuration from disk.
    Reloading,
    /// Probing a fresh database connection against the restored file.
    Reconnecting,
    /// Minting a fresh session credential.
    IssuingToken,
    /// The restore is finished and reported as a success.
    Done,
    /// The upload was rejected before any destructive step.
    FailedValidation,
    /// Extraction failed after the wipe had begun.
    FailedExtraction,
}

/// The phase that follows `p` when its step reports `ok`.
///
/// Only validation and extraction can fail a run; every other step's
/// outcome is absorbed. Terminal phases stay where they are.
pub open spec fn spec_advance(p: RestorePhase, ok: bool) -> RestorePhase {
    match p {
        RestorePhase::Idle => RestorePhase::Disconnecting,
        RestorePhase::Disconnecting => RestorePhase::Validating,
        RestorePhase::Validating => if ok {
            RestorePhase::Wiping
        } else {
            RestorePhase::FailedValidation
        },
        RestorePhase::Wiping => RestorePhase::Extracting,
        RestorePhase::Extracting => if ok {
            RestorePhase::Reloading
        } else {
            RestorePhase::FailedExtraction
        },
        RestorePhase::Reloading => RestorePhase::Reconnecting,
        RestorePhase::Reconnecting => RestorePhase::IssuingToken,
        RestorePhase::IssuingToken => RestorePhase::Done,
        RestorePhase::Done => RestorePhase::Done,
        RestorePhase::FailedValidation => RestorePhase::FailedValidation,
        RestorePhase::FailedExtraction => RestorePhase::FailedExtraction,
    }
}

/// True of the phases in which the data directory has been or is being
/// modified.
pub open spec fn touches_data(p: RestorePhase) -> bool {
    match p {
        RestorePhase::Wiping => true,
        RestorePhase::Extracting => true,
        RestorePhase::FailedExtraction => true,
        RestorePhase::Reloading => true,
        RestorePhase::Reconnecting => true,
        RestorePhase::IssuingToken => true,
        RestorePhase::Done => true,
        _ => false,
    }
}

/// True of the phases from which no further step runs.
pub open spec fn is_terminal(p: RestorePhase) -> bool {
    match p {
        RestorePhase::Done => true,
        RestorePhase::FailedValidation => true,
        RestorePhase::FailedExtraction => true,
        _ => false,
    }
}

/// Advances the machine by one reported step outcome.
pub fn advance(p: RestorePhase, ok: bool) -> (q: RestorePhase)
    ensures
        q == spec_advance(p, ok),
{
    match p {
        RestorePhase::Idle => RestorePhase::Disconnecting,
        RestorePhase::Disconnecting => RestorePhase::Validating,
        RestorePhase::Validating => if ok {
            RestorePhase::Wiping
        } else {
            RestorePhase::FailedValidation
        },
        RestorePhase::Wiping => RestorePhase::Extracting,
        RestorePhase::Extracting => if ok {
            RestorePhase::Reloading
        } else {
            RestorePhase::FailedExtraction
        },
        RestorePhase::Reloading => RestorePhase::Reconnecting,
        RestorePhase::Reconnecting => RestorePhase::IssuingToken,
        RestorePhase::IssuingToken => RestorePhase::Done,
        RestorePhase::Done => RestorePhase::Done,
        RestorePhase::FailedValidation => RestorePhase::FailedValidation,
        RestorePhase::FailedExtraction => RestorePhase::FailedExtraction,
    }
}

/// One step enters the data-touching region only out of a successful
/// validation.
pub proof fn lemma_step_guard(p: RestorePhase, ok: bool)
    ensures
        touches_data(spec_advance(p, ok)) ==> touches_data(p) || (p == RestorePhase::Validating
            && ok),
{
}

/// The phase a run of step outcomes reaches, starting from `Idle`.
pub open spec fn spec_run(outcomes: Seq<bool>) -> RestorePhase
    decreases outcomes.len(),
{
    if outcomes.len() == 0 {
        RestorePhase::Idle
    } else {
        spec_advance(spec_run(outcomes.drop_last()), outcomes.last())
    }
}

/// The data directory is never modified unless validation has already
/// succeeded: every run that reaches a data-touching phase passed through
/// `Validating` with a successful outcome.
pub proof fn lemma_no_touch_without_validation(outcomes: Seq<bool>)
    requires
        touches_data(spec_run(outcomes)),
    ensures
        exists|i: int|
            0 <= i < outcomes.len() && spec_run(#[trigger] outcomes.take(i))
                == RestorePhase::Validating && outcomes[i],
    decreases outcomes.len(),
{
    let n = outcomes.len() as int;
    let prev = spec_run(outcomes.drop_last());
    if touches_data(prev) {
        lemma_no_touch_without_validation(outcomes.drop_last());
        let i = choose|i: int|
            0 <= i < outcomes.drop_last().len() && spec_run(
                #[trigger] outcomes.drop_last().take(i),
            ) == RestorePhase::Validating && outcomes.drop_last()[i];
        assert(outcomes.drop_last().take(i) =~= outcomes.take(i));
        assert(spec_run(outcomes.take(i)) == RestorePhase::Validating && outcomes[i]);
    } else {
        lemma_step_guard(prev, outcomes.last());
        assert(outcomes.take(n - 1) =~= outcomes.drop_last());
        assert(spec_run(outcomes.take(n - 1)) == RestorePhase::Validating && outcomes[n - 1]);
    }
}

} // verus!
