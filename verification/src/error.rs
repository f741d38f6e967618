//! The error taxonomy shared by every module.

use vstd::prelude::*;
use vstd::string::*;

use crate::text::glue;

pub mod laws;

verus! {

/// What went wrong, with the reason in words.
#[derive(Debug)]
pub enum AgentdError {
    InvalidAgentId(String),
    InvalidEnvelope(String),
    Config(String),
    DedupStore(String),
    Relay(String),
}

impl AgentdError {
    /// The text an operator sees.
    pub open spec fn message(self) -> Seq<char> {
        match self {
            AgentdError::InvalidAgentId(m) => "invalid agent id: "@ + m@,
            AgentdError::InvalidEnvelope(m) => "invalid event envelope: "@ + m@,
            AgentdError::Config(m) => "configuration error: "@ + m@,
            AgentdError::DedupStore(m) => "dedup store error: "@ + m@,
            AgentdError::Relay(m) => "relay error: "@ + m@,
        }
    }

    /// The text an operator sees: what kind of error it is, and why.
    pub fn to_string(&self) -> (s: String)
        ensures
            s@ == self.message(),
    {
        match self {
            AgentdError::InvalidAgentId(m) => glue("invalid agent id: ", m.as_str()),
            AgentdError::InvalidEnvelope(m) => glue("invalid event envelope: ", m.as_str()),
            AgentdError::Config(m) => glue("configuration error: ", m.as_str()),
            AgentdError::DedupStore(m) => glue("dedup store error: ", m.as_str()),
            AgentdError::Relay(m) => glue("relay error: ", m.as_str()),
        }
    }

    /// An agent id that does not follow the grammar.
    pub fn invalid_agent_id(reason: String) -> (e: AgentdError)
        ensures
            e == AgentdError::InvalidAgentId(reason),
    {
        AgentdError::InvalidAgentId(reason)
    }

    /// An event that cannot be dispatched.
    pub fn invalid_envelope(reason: String) -> (e: AgentdError)
        ensures
            e == AgentdError::InvalidEnvelope(reason),
    {
        AgentdError::InvalidEnvelope(reason)
    }

    /// A configuration or registration problem.
    pub fn config(reason: String) -> (e: AgentdError)
        ensures
            e == AgentdError::Config(reason),
    {
        AgentdError::Config(reason)
    }

    /// A failure of the completed-event store.
    pub fn dedup_store(reason: String) -> (e: AgentdError)
        ensures
            e == AgentdError::DedupStore(reason),
    {
        AgentdError::DedupStore(reason)
    }

    /// A failure of the relay.
    pub fn relay(reason: String) -> (e: AgentdError)
        ensures
            e == AgentdError::Relay(reason),
    {
        AgentdError::Relay(reason)
    }
}

} // verus!
