//! What can go wrong, and the message that goes with it.
use vstd::prelude::*;
use vstd::string::StringExecFns;
use vstd::utf8::{decode_utf8, valid_utf8};

use crate::text::{
    append_decimal, decimal, http_status_reason, law_decimal_is_unique, lossy_text, status_text,
    utf8_lossy,
};

verus! {

/// An error of the connector.
#[derive(Debug, PartialEq, Eq)]
pub enum S2Error {
    /// The payload of an event is not a batch of records.
    Decode { payload: Vec<u8>, error: String },
    /// The response body could not be read.
    Read { error: String },
    /// The request could not be sent, or no response came.
    Request { error: String },
    /// The response carries a status that is not a success.
    Status { status: u16 },
    /// The saved position of the reader could not be decoded.
    ResumeInfo { error: String },
    /// The stream ended before all of a checkpoint was read again.
    ReplayEnded,
    /// A record is missing while a checkpoint is read again.
    ReplayGap { expected: u64, received: u64 },
    /// A batch held nothing that a checkpoint still needs.
    ReplayStalled { seq_num: u64 },
    /// A record is missing.
    InputGap { expected: u64, received: u64 },
}

/// The message for records that are missing, behind `prefix`.
pub open spec fn gap_text(prefix: Seq<char>, expected: u64, received: u64) -> Seq<char> {
    prefix + decimal(expected as nat) + ", received "@ + decimal(received as nat)
}

impl S2Error {
    /// Whether the error holds values that can occur: a status code has three digits.
    pub open spec fn wf(self) -> bool {
        self matches S2Error::Status { status } ==> 100 <= status <= 999
    }

    /// The text of the error.
    pub open spec fn text(self) -> Seq<char> {
        match self {
            S2Error::Decode { payload, error } => "failed to decode S2 SSE payload as JSON (payload="@
                + lossy_text(payload@) + "): "@ + error@,
            S2Error::Read { error } => "error while reading S2 stream: "@ + error@,
            S2Error::Request { error } => error@,
            S2Error::Status { status } => "S2 stream request failed with HTTP status "@ + (decimal(
                status as nat,
            ).push(' ') + http_status_reason(status)),
            S2Error::ResumeInfo { error } => error@,
            S2Error::ReplayEnded => "unexpected end of S2 stream while replaying checkpoint"@,
            S2Error::ReplayGap { expected, received } => gap_text(
                "S2 replay gap detected: expected seq_num "@,
                expected,
                received,
            ),
            S2Error::ReplayStalled { seq_num } => "S2 replay did not progress at seq_num "@
                + decimal(seq_num as nat),
            S2Error::InputGap { expected, received } => gap_text(
                "S2 input gap detected: expected seq_num "@,
                expected,
                received,
            ),
        }
    }

    /// The message of the error. A payload that is valid UTF-8 is quoted as it is.
    pub fn message(&self) -> (res: String)
        requires
            self.wf(),
        ensures
            res@ == self.text(),
            self matches S2Error::Decode { payload, .. } ==> valid_utf8(payload@) ==> lossy_text(
                payload@,
            ) == decode_utf8(payload@),
    {
        match self {
            S2Error::Decode { payload, error } => {
                let mut text = String::from_str("failed to decode S2 SSE payload as JSON (payload=");
                text.append(utf8_lossy(payload).as_str());
                text.append("): ");
                text.append(error.as_str());
                text
            },
            S2Error::Read { error } => String::from_str("error while reading S2 stream: ").concat(
                error.as_str(),
            ),
            S2Error::Request { error } => error.clone(),
            S2Error::Status { status } => String::from_str(
                "S2 stream request failed with HTTP status ",
            ).concat(status_text(*status).as_str()),
            S2Error::ResumeInfo { error } => error.clone(),
            S2Error::ReplayEnded => String::from_str(
                "unexpected end of S2 stream while replaying checkpoint",
            ),
            S2Error::ReplayGap { expected, received } => gap_message(
                "S2 replay gap detected: expected seq_num ",
                *expected,
                *received,
            ),
            S2Error::ReplayStalled { seq_num } => {
                let mut text = String::from_str("S2 replay did not progress at seq_num ");
                append_decimal(&mut text, *seq_num);
                text
            },
            S2Error::InputGap { expected, received } => gap_message(
                "S2 input gap detected: expected seq_num ",
                *expected,
                *received,
            ),
        }
    }
}

/// The message for records that are missing, behind `prefix`.
fn gap_message(prefix: &str, expected: u64, received: u64) -> (res: String)
    ensures
        res@ == gap_text(prefix@, expected, received),
{
    let mut text = String::from_str(prefix);
    append_decimal(&mut text, expected);
    text.append(", received ");
    append_decimal(&mut text, received);
    text
}

/// The message of an error says what went wrong and names all that the error holds.
pub proof fn law_messages(
    payload: Vec<u8>,
    error: String,
    status: u16,
    expected: u64,
    received: u64,
)
    ensures
        (S2Error::Decode { payload, error }).text()
            == "failed to decode S2 SSE payload as JSON (payload="@ + lossy_text(payload@) + "): "@
            + error@,
        (S2Error::Read { error }).text() == "error while reading S2 stream: "@ + error@,
        (S2Error::Request { error }).text() == error@,
        (S2Error::ResumeInfo { error }).text() == error@,
        (S2Error::Status { status }).text() == "S2 stream request failed with HTTP status "@
            + decimal(status as nat) + " "@ + http_status_reason(status),
        (S2Error::ReplayEnded).text() == "unexpected end of S2 stream while replaying checkpoint"@,
        (S2Error::ReplayGap { expected, received }).text()
            == "S2 replay gap detected: expected seq_num "@ + decimal(expected as nat)
            + ", received "@ + decimal(received as nat),
        (S2Error::InputGap { expected, received }).text()
            == "S2 input gap detected: expected seq_num "@ + decimal(expected as nat)
            + ", received "@ + decimal(received as nat),
        (S2Error::ReplayStalled { seq_num: expected }).text()
            == "S2 replay did not progress at seq_num "@ + decimal(expected as nat),
{
    reveal_strlit(" ");
    let prefix = "S2 stream request failed with HTTP status "@;
    assert((S2Error::Status { status }).text() =~= prefix + decimal(status as nat) + " "@
        + http_status_reason(status));
}

/// Every error can be told, except a status that is no status code.
pub proof fn law_errors_can_be_told(error: S2Error)
    ensures
        error !is Status ==> error.wf(),
        error matches S2Error::Status { status } ==> (error.wf() <==> 100 <= status <= 999),
{
}

/// Gaps at different numbers have different messages, and so have gaps in live input and gaps in a
/// replay.
pub proof fn law_gap_messages_differ(expected: u64, received: u64, other: u64)
    ensures
        other != received ==> (S2Error::InputGap { expected, received }).text() != (
        S2Error::InputGap { expected, received: other }).text(),
        other != received ==> (S2Error::ReplayGap { expected, received }).text() != (
        S2Error::ReplayGap { expected, received: other }).text(),
        (S2Error::InputGap { expected, received }).text() != (S2Error::ReplayGap {
            expected,
            received,
        }).text(),
{
    law_decimal_is_unique(received as nat, other as nat);
    let input = "S2 input gap detected: expected seq_num "@ + decimal(expected as nat)
        + ", received "@;
    let replay = "S2 replay gap detected: expected seq_num "@ + decimal(expected as nat)
        + ", received "@;
    assert((input + decimal(received as nat)).skip(input.len() as int) =~= decimal(
        received as nat,
    ));
    assert((input + decimal(other as nat)).skip(input.len() as int) =~= decimal(other as nat));
    assert((replay + decimal(received as nat)).skip(replay.len() as int) =~= decimal(
        received as nat,
    ));
    assert((replay + decimal(other as nat)).skip(replay.len() as int) =~= decimal(other as nat));
    reveal_strlit("S2 input gap detected: expected seq_num ");
    reveal_strlit("S2 replay gap detected: expected seq_num ");
    let live = (S2Error::InputGap { expected, received }).text();
    let again = (S2Error::ReplayGap { expected, received }).text();
    assert(live[3] == 'i' && again[3] == 'r');
}

} // verus!
