//! What the ledger records for a message taken from a stream.

use vstd::prelude::*;

verus! {

/// The payload of a received message, as far as the ledger cares.
pub enum MessagePayload {
    /// A payload that is valid UTF-8 text.
    Text(String),
    /// A payload whose bytes are not valid UTF-8.
    NotUtf8,
    /// A message without a payload.
    Absent,
}

/// What a message that cannot be read as text is recorded as.
pub open spec fn not_utf8_text() -> Seq<char> {
    "<payload is not utf-8>"@
}

/// What a message without a payload is recorded as.
pub open spec fn absent_text() -> Seq<char> {
    "<payload is empty>"@
}

/// The text to append for a message. Every message is recorded, so that
/// the chain has one block per delivered message: text as it is, and a
/// fixed placeholder for a payload that is missing or not UTF-8.
pub fn payload_text(payload: MessagePayload) -> (r: String)
    ensures
        r@ == match payload {
            MessagePayload::Text(s) => s@,
            MessagePayload::NotUtf8 => not_utf8_text(),
            MessagePayload::Absent => absent_text(),
        },
{
    match payload {
        MessagePayload::Text(s) => s,
        MessagePayload::NotUtf8 => "<payload is not utf-8>".to_owned(),
        MessagePayload::Absent => "<payload is empty>".to_owned(),
    }
}

} // verus!
