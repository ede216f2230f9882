use cala_projector::primitives::JobId;
use cala_projector::projector::error::ProjectorError;
use cala_projector::projector::repo::ProjectorRepo;

#[test]
fn service_errors_name_their_service_and_their_cause() {
    let cause = || "no such row".to_owned();
    let cases = [
        (ProjectorError::Sqlx(cause()), "ProjectorError - Sqlx: no such row"),
        (ProjectorError::Serde(cause()), "ProjectorError - Serde: no such row"),
        (
            ProjectorError::AccountSetError(cause()),
            "ProjectorError - AccountSetError: no such row",
        ),
        (ProjectorError::BalanceError(cause()), "ProjectorError - BalanceError: no such row"),
        (ProjectorError::JournalError(cause()), "ProjectorError - JournalError: no such row"),
        (
            ProjectorError::TransactionError(cause()),
            "ProjectorError - TransactionError: no such row",
        ),
    ];
    for (error, message) in cases {
        assert_eq!(error.message(), message);
    }
}

#[test]
fn a_fenced_cursor_names_its_job_and_its_position() {
    let error = ProjectorError::CursorFenced {
        job_id: JobId(0x0192_5b0c_0d1e_7f3a_8b4c_00ab_cdef_0123),
        expected: 1_000_042,
    };
    assert_eq!(
        error.message(),
        "ProjectorError - CursorFenced: job '01925b0c-0d1e-7f3a-8b4c-00abcdef0123' expected \
         cursor at sequence 1000042 but another instance has advanced it"
    );
    let error = ProjectorError::CursorFenced { job_id: JobId(0), expected: i64::MIN };
    assert_eq!(
        error.message(),
        "ProjectorError - CursorFenced: job '00000000-0000-0000-0000-000000000000' expected \
         cursor at sequence -9223372036854775808 but another instance has advanced it"
    );
}

#[test]
fn a_swap_that_changes_one_row_advances_the_cursor() {
    assert!(ProjectorRepo::cursor_advanced(1, JobId(7), 5).is_ok());
}

#[test]
fn a_swap_that_changes_no_row_is_fenced() {
    let error = ProjectorRepo::cursor_advanced(0, JobId(7), 5).unwrap_err();
    assert!(matches!(
        error,
        ProjectorError::CursorFenced { job_id: JobId(7), expected: 5 }
    ));
}

#[test]
fn positions_are_written_in_decimal() {
    for expected in [0, 7, 10, 99, 100, 1_234_567_890, -1, -10, i64::MAX, i64::MIN] {
        let error = ProjectorError::CursorFenced { job_id: JobId(1), expected };
        let text = format!("cursor at sequence {expected} but");
        assert!(error.message().contains(&text), "{}", error.message());
    }
}
