//! The event envelope.
//!
//! The daemon interprets only the version, the event id and the agent id.
//! Everything else is passed through to the handler unchanged: the handler
//! receives the original bytes of the message, so an envelope is for
//! validation and routing only and is never written out again.

use vstd::prelude::*;
use vstd::string::*;

use crate::agent_id::AgentId;
use crate::error::AgentdError;
use crate::text;
use crate::text::{append_decimal, blank, glue};

pub mod laws;

verus! {

/// The only version of the envelope that is accepted.
pub const ENVELOPE_VERSION: u32 = 1;

/// `serde_json::Value`, carried through unread.
#[verifier::external_type_specification]
#[verifier::external_body]
pub struct ExValue(serde_json::Value);

/// A decoded envelope. The payload and the metadata are opaque.
#[derive(Debug)]
pub struct EventEnvelope {
    pub version: u32,
    pub event_id: String,
    pub agent_id: AgentId,
    pub event_type: String,
    pub created_at: String,
    pub payload: serde_json::Value,
    pub metadata: Option<serde_json::Value>,
}

/// Why a decoded envelope cannot be dispatched, if it cannot.
pub open spec fn envelope_fault(envelope: EventEnvelope) -> Option<Seq<char>> {
    if envelope.version != ENVELOPE_VERSION {
        Some(
            "unsupported version "@ + text::decimal(envelope.version as nat) + " (only "@
                + text::decimal(ENVELOPE_VERSION as nat) + ")"@,
        )
    } else if text::is_blank(envelope.event_id@) {
        Some("missing event_id"@)
    } else {
        None
    }
}

/// What becomes of a message: the envelope it holds, or why it holds none that
/// can be dispatched.
pub open spec fn envelope_outcome(decoded: Result<EventEnvelope, String>) -> Result<
    EventEnvelope,
    Seq<char>,
> {
    match decoded {
        Err(e) => Err("unparseable JSON: "@ + e@),
        Ok(envelope) => match envelope_fault(envelope) {
            Some(m) => Err(m),
            None => Ok(envelope),
        },
    }
}

impl EventEnvelope {
    /// Turns the decoder's result on a message into an envelope that can be
    /// dispatched: the message is JSON of the envelope's shape, the version is
    /// supported, and the event id is not blank.
    pub fn parse(decoded: Result<EventEnvelope, String>) -> (r: Result<EventEnvelope, AgentdError>)
        ensures
            match envelope_outcome(decoded) {
                Ok(envelope) => r == Ok::<EventEnvelope, AgentdError>(envelope),
                Err(m) => r matches Err(AgentdError::InvalidEnvelope(n)) && n@ == m,
            },
    {
        match decoded {
            Err(e) => Err(
                AgentdError::invalid_envelope(glue("unparseable JSON: ", e.as_str())),
            ),
            Ok(envelope) => match envelope.validate() {
                Err(e) => Err(e),
                Ok(_) => Ok(envelope),
            },
        }
    }

    /// Checks what the daemon is allowed to check of an envelope.
    pub fn validate(&self) -> (r: Result<(), AgentdError>)
        ensures
            match envelope_fault(*self) {
                Some(m) => r matches Err(AgentdError::InvalidEnvelope(n)) && n@ == m,
                None => r is Ok,
            },
    {
        if self.version != ENVELOPE_VERSION {
            let mut m = "unsupported version ".to_owned();
            append_decimal(&mut m, self.version as u64);
            m.append(" (only ");
            append_decimal(&mut m, ENVELOPE_VERSION as u64);
            m.append(")");
            return Err(AgentdError::invalid_envelope(m));
        }
        if blank(self.event_id.as_str()) {
            return Err(AgentdError::invalid_envelope("missing event_id".to_owned()));
        }
        Ok(())
    }
}

} // verus!
