//! Messages exchanged with the engine, and what the dispatch step decides to do.

use serde_json::Value;
use vstd::prelude::*;

verus! {

/// What a continuation receives: the engine's result, the engine's error,
/// or the indication that the engine went away before replying.
pub enum Reply {
    Result(Value),
    Error(Value),
    Shutdown,
}

/// An inbound message once classified.
pub enum Inbound {
    /// A reply correlated to a request by its identifier.
    Response { id: u64, reply: Reply },
    /// An unsolicited message from the engine.
    Notification { method: String, params: Value },
    /// A message that is neither of the above.
    Malformed,
}

/// A message to be written to the engine, one per send.
pub enum Outbound {
    Request { id: u64, method: String, params: Value },
    Notification { method: String, params: Value },
}

/// Why an inbound message led to nothing.
#[derive(PartialEq, Eq, Structural, Clone, Copy, Debug)]
pub enum DropReason {
    /// A response whose identifier has no pending request.
    UnknownId(u64),
    /// A message that could not be classified.
    Malformed,
}

/// What the dispatch loop must do with one inbound message.
pub enum Action<C> {
    /// Run `continuation` with `reply`; its entry has left the table.
    Resolve { id: u64, continuation: C, reply: Reply },
    /// Hand the notification to the handler.
    Notify { method: String, params: Value },
    /// Do nothing but report.
    Discard(DropReason),
}

/// The identifier field of an inbound message as read off the wire.
#[derive(PartialEq, Eq, Structural, Clone, Copy, Debug)]
pub enum IdField {
    Absent,
    Number(u64),
    /// Present but not an unsigned integer.
    Invalid,
}

/// The fields of an inbound message that the dispatch loop looks at.
/// A missing `params` reads as the null value.
pub struct RawMessage {
    pub id: IdField,
    pub method: Option<String>,
    pub params: Value,
    pub result: Option<Value>,
    pub error: Option<Value>,
}

/// How a raw message is classified: one with an identifier is a response,
/// carrying its error if it has one and else its result; one without is a
/// notification if it names a method. Anything else is malformed.
pub open spec fn classified(raw: RawMessage) -> Inbound {
    match raw.id {
        IdField::Number(id) => match raw.error {
            Some(e) => Inbound::Response { id, reply: Reply::Error(e) },
            None => match raw.result {
                Some(v) => Inbound::Response { id, reply: Reply::Result(v) },
                None => Inbound::Malformed,
            },
        },
        IdField::Invalid => Inbound::Malformed,
        IdField::Absent => match raw.method {
            Some(method) => Inbound::Notification { method, params: raw.params },
            None => Inbound::Malformed,
        },
    }
}

/// Classifies one inbound message.
pub fn classify(raw: RawMessage) -> (r: Inbound)
    ensures
        r == classified(raw),
{
    match raw.id {
        IdField::Number(id) => match raw.error {
            Some(e) => Inbound::Response { id, reply: Reply::Error(e) },
            None => match raw.result {
                Some(v) => Inbound::Response { id, reply: Reply::Result(v) },
                None => Inbound::Malformed,
            },
        },
        IdField::Invalid => Inbound::Malformed,
        IdField::Absent => match raw.method {
            Some(method) => Inbound::Notification { method, params: raw.params },
            None => Inbound::Malformed,
        },
    }
}

} // verus!
