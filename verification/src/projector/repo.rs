//! The durable cursor.

use crate::primitives::JobId;
use crate::projector::error::ProjectorError;
use crate::projector::state::ProjectorState;
use vstd::prelude::*;

verus! {

/// The cursor as the job's row holds it; a row that was never advanced holds
/// none, and stands at zero.
pub open spec fn cursor_position(persisted: Option<ProjectorState>) -> i64 {
    match persisted {
        Some(state) => state.sequence,
        None => 0,
    }
}

/// The number of rows that the compare-and-swap from `expected` changes: one
/// where the cursor stands at `expected`, else none.
pub open spec fn rows_advanced(persisted: Option<ProjectorState>, expected: i64) -> u64 {
    if cursor_position(persisted) == expected {
        1
    } else {
        0
    }
}

/// How the persisted cursor is advanced.
pub struct ProjectorRepo;

impl ProjectorRepo {
    /// What the number of rows that a compare-and-swap of the cursor has
    /// changed says of it: an instance that has changed none has lost, and
    /// aborts its whole operation, snapshots included. The id of a row is
    /// unique, so that it can change no more than one.
    pub fn cursor_advanced(rows_affected: u64, job_id: JobId, expected: i64) -> (advanced: Result<
        (),
        ProjectorError,
    >)
        requires
            rows_affected <= 1,
        ensures
            rows_affected == 1 ==> advanced == Ok::<(), ProjectorError>(()),
            rows_affected == 0 ==> advanced == Err::<(), ProjectorError>(
                ProjectorError::CursorFenced { job_id, expected },
            ),
    {
        if rows_affected == 1 {
            Ok(())
        } else {
            Err(ProjectorError::CursorFenced { job_id, expected })
        }
    }
}

} // verus!
