//! How failures are told.

use crate::primitives::JobId;
use crate::projector::batch::BatchModel;
use crate::projector::error::{
    decimal_digits, decimal_text, digit, hex_digits, uuid_text, ProjectorError,
};
use crate::projector::repo::{cursor_position, rows_advanced};
use crate::projector::state::ProjectorState;
use vstd::arithmetic::power::{lemma_pow1, lemma_pow_adds, pow};
use vstd::prelude::*;

verus! {

/// A failure is told as that of the service that was asked.
pub proof fn law_failures_name_the_service(model: BatchModel, cause: String)
    ensures
        model.stage is ListEcSets || model.stage is FetchMappings ==> model.failure(cause)
            == ProjectorError::AccountSetError(cause),
        model.stage is LoadBalances || model.stage is InsertSnapshots
            || model.stage is RebuildEffective ==> model.failure(cause)
            == ProjectorError::BalanceError(cause),
        model.stage is FindJournal ==> model.failure(cause) == ProjectorError::JournalError(cause),
        model.stage is FindTransactions ==> model.failure(cause)
            == ProjectorError::TransactionError(cause),
        model.stage is AdvanceCursor || model.stage is Advanced ==> model.failure(cause)
            == ProjectorError::Sqlx(cause),
{
}

/// The cursor is swapped exactly where it stands at the expected position; a
/// row that was never advanced stands at zero.
pub proof fn law_the_cursor_is_swapped_where_it_is_expected(state: ProjectorState, expected: i64)
    ensures
        cursor_position(Some(state)) == state.sequence,
        cursor_position(None) == 0,
        rows_advanced(Some(state), expected) == if state.sequence == expected {
            1u64
        } else {
            0u64
        },
        rows_advanced(None, expected) == if expected == 0 {
            1u64
        } else {
            0u64
        },
{
}

/// A message names the service and then gives the whole cause.
pub proof fn law_messages_give_the_whole_cause(cause: String, job_id: JobId, expected: i64)
    ensures
        ProjectorError::Sqlx(cause).spec_message() == "ProjectorError - Sqlx: "@ + cause@,
        ProjectorError::Serde(cause).spec_message() == "ProjectorError - Serde: "@ + cause@,
        ProjectorError::AccountSetError(cause).spec_message()
            == "ProjectorError - AccountSetError: "@ + cause@,
        ProjectorError::BalanceError(cause).spec_message() == "ProjectorError - BalanceError: "@
            + cause@,
        ProjectorError::JournalError(cause).spec_message() == "ProjectorError - JournalError: "@
            + cause@,
        ProjectorError::TransactionError(cause).spec_message()
            == "ProjectorError - TransactionError: "@ + cause@,
        (ProjectorError::CursorFenced { job_id, expected }).spec_message()
            == "ProjectorError - CursorFenced: job '"@ + uuid_text(job_id.0)
            + "' expected cursor at sequence "@ + decimal_text(expected as int)
            + " but another instance has advanced it"@,
{
}

/// The number that a text of decimal digits stands for.
pub open spec fn read_decimal(text: Seq<char>) -> int
    decreases text.len(),
{
    if text.len() == 0 {
        0
    } else {
        10 * read_decimal(text.drop_last()) + (text.last() as int - '0' as int)
    }
}

/// The decimal digits of a number are digits, stand for the number, and do not
/// begin with a zero unless the number is zero.
proof fn lemma_decimal_digits(value: nat)
    ensures
        decimal_digits(value).len() > 0,
        forall|i: int|
            0 <= i < decimal_digits(value).len() ==> '0' as int <= (#[trigger] decimal_digits(
                value,
            )[i]) as int <= '9' as int,
        read_decimal(decimal_digits(value)) == value,
        decimal_digits(value)[0] == '0' ==> value == 0 && decimal_digits(value).len() == 1,
    decreases value,
{
    if value < 10 {
        reveal_with_fuel(read_decimal, 2);
        assert(decimal_digits(value).drop_last() =~= Seq::<char>::empty());
    } else {
        let rest = decimal_digits(value / 10);
        lemma_decimal_digits(value / 10);
        assert(decimal_digits(value).drop_last() =~= rest);
        assert(decimal_digits(value)[0] == rest[0]);
    }
}

/// A number is written as it is read: its text gives the number back, after a
/// minus sign where it is negative.
pub proof fn law_numbers_read_back(value: int)
    ensures
        value >= 0 ==> read_decimal(decimal_text(value)) == value && decimal_text(value).len() > 0
            && decimal_text(value)[0] != '-',
        value < 0 ==> decimal_text(value)[0] == '-' && read_decimal(decimal_text(value).skip(1))
            == -value,
        value != 0 ==> decimal_text(value)[0] != '0',
{
    if value >= 0 {
        lemma_decimal_digits(value as nat);
    } else {
        lemma_decimal_digits((-value) as nat);
        assert(decimal_text(value).skip(1) =~= decimal_digits((-value) as nat));
    }
}

/// The number that a hexadecimal digit stands for.
pub open spec fn read_hex_digit(c: char) -> int {
    if c as int <= '9' as int {
        c as int - '0' as int
    } else {
        c as int - 'a' as int + 10
    }
}

/// The number that a text of hexadecimal digits stands for.
pub open spec fn read_hex(text: Seq<char>) -> int
    decreases text.len(),
{
    if text.len() == 0 {
        0
    } else {
        16 * read_hex(text.drop_last()) + read_hex_digit(text.last())
    }
}

/// So many hexadecimal digits stand for a number that needs no more.
proof fn lemma_hex_digits(value: nat, count: nat)
    requires
        value < pow(16, count),
    ensures
        hex_digits(value, count).len() == count,
        read_hex(hex_digits(value, count)) == value,
    decreases count,
{
    reveal(pow);
    if count > 0 {
        let less = (count - 1) as nat;
        assert(pow(16, count) == 16 * pow(16, less));
        lemma_hex_digits(value / 16, less);
        assert(hex_digits(value, count).drop_last() =~= hex_digits(value / 16, less));
        let d = (value % 16) as int;
        assert(read_hex_digit(digit(d)) == d);
    }
}

/// Thirty-two hexadecimal digits are enough for a UUID.
proof fn lemma_uuid_needs_32_digits()
    ensures
        pow(16, 32) == 0x1_0000_0000_0000_0000_0000_0000_0000_0000int,
{
    lemma_pow1(16);
    lemma_pow_adds(16, 1, 1);
    assert(pow(16, 2) == 0x100int);
    lemma_pow_adds(16, 2, 2);
    assert(pow(16, 4) == 0x1_0000int);
    lemma_pow_adds(16, 4, 4);
    assert(pow(16, 8) == 0x1_0000_0000int);
    lemma_pow_adds(16, 8, 8);
    assert(pow(16, 16) == 0x1_0000_0000_0000_0000int);
    lemma_pow_adds(16, 16, 16);
}

/// The text of a UUID has hyphens at its four places, and its other characters
/// give the UUID back.
pub proof fn law_uuids_read_back(uuid: u128)
    ensures
        ({
            let text = uuid_text(uuid);
            &&& text.len() == 36
            &&& text[8] == '-' && text[13] == '-' && text[18] == '-' && text[23] == '-'
            &&& read_hex(
                text.subrange(0, 8) + text.subrange(9, 13) + text.subrange(14, 18)
                    + text.subrange(19, 23) + text.subrange(24, 36),
            ) == uuid
        }),
{
    lemma_uuid_needs_32_digits();
    lemma_hex_digits(uuid as nat, 32);
    let text = uuid_text(uuid);
    assert(text.subrange(0, 8) + text.subrange(9, 13) + text.subrange(14, 18) + text.subrange(
        19,
        23,
    ) + text.subrange(24, 36) =~= hex_digits(uuid as nat, 32));
}

} // verus!
