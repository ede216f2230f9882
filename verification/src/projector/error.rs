//! What can go wrong while a batch is projected.

use crate::primitives::JobId;
use vstd::prelude::*;
use vstd::string::StringExecFns;

verus! {

/// Why a batch was not projected. The failures of the ledger's services carry
/// the text of their cause.
#[derive(Debug)]
pub enum ProjectorError {
    Sqlx(String),
    Serde(String),
    AccountSetError(String),
    BalanceError(String),
    JournalError(String),
    TransactionError(String),
    /// Another instance has advanced the cursor that this one expected.
    CursorFenced { job_id: JobId, expected: i64 },
}

/// The digit of a number below sixteen.
pub open spec fn digit(value: int) -> char {
    if value < 10 {
        (value + '0' as int) as char
    } else {
        (value - 10 + 'a' as int) as char
    }
}

/// The decimal digits of a number that is not negative.
pub open spec fn decimal_digits(value: nat) -> Seq<char>
    decreases value,
{
    if value < 10 {
        seq![digit(value as int)]
    } else {
        decimal_digits(value / 10).push(digit((value % 10) as int))
    }
}

/// A number in decimal.
pub open spec fn decimal_text(value: int) -> Seq<char> {
    if value < 0 {
        seq!['-'] + decimal_digits((-value) as nat)
    } else {
        decimal_digits(value as nat)
    }
}

/// The hexadecimal digits of a number, as many as `count`, the most
/// significant first.
pub open spec fn hex_digits(value: nat, count: nat) -> Seq<char>
    decreases count,
{
    if count == 0 {
        Seq::empty()
    } else {
        hex_digits(value / 16, (count - 1) as nat).push(digit((value % 16) as int))
    }
}

/// A UUID in its hyphenated form: thirty-two hexadecimal digits, in groups of
/// eight, four, four, four and twelve.
pub open spec fn uuid_text(uuid: u128) -> Seq<char> {
    let digits = hex_digits(uuid as nat, 32);
    digits.subrange(0, 8) + seq!['-'] + digits.subrange(8, 12) + seq!['-'] + digits.subrange(
        12,
        16,
    ) + seq!['-'] + digits.subrange(16, 20) + seq!['-'] + digits.subrange(20, 32)
}

/// `<job::JobId as Display>`, of the id made from this UUID. Claimed of it: it
/// is the UUID, hyphenated and in lower case.
#[verifier::external_body]
fn job_id_text(job_id: JobId) -> (text: String)
    ensures
        text@ == uuid_text(job_id.0),
{
    job::JobId::from(uuid::Uuid::from_u128(job_id.0)).to_string()
}

/// The text of one decimal digit.
fn digit_text(value: u64) -> (text: &'static str)
    requires
        value < 10,
    ensures
        text@ == seq![digit(value as int)],
{
    proof {
        reveal_strlit("0");
        reveal_strlit("1");
        reveal_strlit("2");
        reveal_strlit("3");
        reveal_strlit("4");
        reveal_strlit("5");
        reveal_strlit("6");
        reveal_strlit("7");
        reveal_strlit("8");
        reveal_strlit("9");
    }
    let text: &'static str = match value {
        0 => "0",
        1 => "1",
        2 => "2",
        3 => "3",
        4 => "4",
        5 => "5",
        6 => "6",
        7 => "7",
        8 => "8",
        _ => "9",
    };
    assert(text@ =~= seq![digit(value as int)]);
    text
}

/// A number that is not negative, in decimal.
fn digits_text(value: u64) -> (text: String)
    ensures
        text@ == decimal_digits(value as nat),
    decreases value,
{
    if value < 10 {
        digit_text(value).to_owned()
    } else {
        let mut text: String = digits_text(value / 10);
        text.append(digit_text(value % 10));
        assert(text@ =~= decimal_digits(value as nat));
        text
    }
}

/// A number in decimal.
fn number_text(value: i64) -> (text: String)
    ensures
        text@ == decimal_text(value as int),
{
    if value < 0 {
        proof {
            reveal_strlit("-");
        }
        let magnitude: u64 = (-(value as i128)) as u64;
        let mut text: String = "-".to_owned();
        let digits: String = digits_text(magnitude);
        text.append(digits.as_str());
        assert(text@ =~= decimal_text(value as int));
        text
    } else {
        digits_text(value as u64)
    }
}

/// `prefix`, then `text`.
fn prefixed(prefix: &str, text: &String) -> (joined: String)
    ensures
        joined@ == prefix@ + text@,
{
    let mut joined: String = prefix.to_owned();
    joined.append(text.as_str());
    joined
}

impl ProjectorError {
    /// What [`ProjectorError::message`] says.
    pub open spec fn spec_message(&self) -> Seq<char> {
        match self {
            ProjectorError::Sqlx(cause) => "ProjectorError - Sqlx: "@ + cause@,
            ProjectorError::Serde(cause) => "ProjectorError - Serde: "@ + cause@,
            ProjectorError::AccountSetError(cause) => "ProjectorError - AccountSetError: "@
                + cause@,
            ProjectorError::BalanceError(cause) => "ProjectorError - BalanceError: "@ + cause@,
            ProjectorError::JournalError(cause) => "ProjectorError - JournalError: "@ + cause@,
            ProjectorError::TransactionError(cause) => "ProjectorError - TransactionError: "@
                + cause@,
            ProjectorError::CursorFenced { job_id, expected } => "ProjectorError - CursorFenced: job '"@
                + uuid_text(job_id.0) + "' expected cursor at sequence "@ + decimal_text(
                *expected as int,
            ) + " but another instance has advanced it"@,
        }
    }

    /// The error, for people.
    pub fn message(&self) -> (message: String)
        ensures
            message@ == self.spec_message(),
    {
        match self {
            ProjectorError::Sqlx(cause) => prefixed("ProjectorError - Sqlx: ", cause),
            ProjectorError::Serde(cause) => prefixed("ProjectorError - Serde: ", cause),
            ProjectorError::AccountSetError(cause) => prefixed(
                "ProjectorError - AccountSetError: ",
                cause,
            ),
            ProjectorError::BalanceError(cause) => prefixed(
                "ProjectorError - BalanceError: ",
                cause,
            ),
            ProjectorError::JournalError(cause) => prefixed(
                "ProjectorError - JournalError: ",
                cause,
            ),
            ProjectorError::TransactionError(cause) => prefixed(
                "ProjectorError - TransactionError: ",
                cause,
            ),
            ProjectorError::CursorFenced { job_id, expected } => {
                let job_id: String = job_id_text(*job_id);
                let expected: String = number_text(*expected);
                let mut message: String = "ProjectorError - CursorFenced: job '".to_owned();
                message.append(job_id.as_str());
                message.append("' expected cursor at sequence ");
                message.append(expected.as_str());
                message.append(" but another instance has advanced it");
                message
            },
        }
    }
}

} // verus!
