//! Log entries shown to the user, and how an event's fields become its
//! message.

use crate::text::{chars_to_string, push_str, str_eq};
use vstd::prelude::*;

verus! {

/// One log line.
#[derive(Debug, Clone)]
pub struct LogEntry {
    pub timestamp: String,
    pub level: String,
    pub target: String,
    pub message: String,
}

/// The message after recording field `field` with the text `value`: the
/// `message` field replaces it, other fields are appended as `name=value`
/// (separated by a space).
pub open spec fn message_with_field(message: Seq<char>, field: Seq<char>, value: Seq<char>) -> Seq<char> {
    if field == "message"@ {
        value
    } else if message.len() == 0 {
        field + seq!['='] + value
    } else {
        message + seq![' '] + field + seq!['='] + value
    }
}

/// Records one field of an event into the message being built.
pub fn record_field(message: &str, field: &str, value: &str) -> (s: String)
    ensures
        s@ == message_with_field(message@, field@, value@),
{
    if str_eq(field, "message") {
        return value.to_owned();
    }
    let mut out: Vec<char> = Vec::new();
    if !message.is_empty() {
        push_str(&mut out, message);
        out.push(' ');
    }
    push_str(&mut out, field);
    out.push('=');
    push_str(&mut out, value);
    chars_to_string(out.as_slice())
}

} // verus!
