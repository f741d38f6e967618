//! Laws of the errors: what an operator is told tells what went wrong.

use vstd::prelude::*;

use crate::error::AgentdError;
use crate::text;

verus! {

/// The reason in an error, whatever went wrong.
pub open spec fn reason(e: AgentdError) -> Seq<char> {
    match e {
        AgentdError::InvalidAgentId(m) | AgentdError::InvalidEnvelope(m) => m@,
        AgentdError::Config(m) | AgentdError::DedupStore(m) | AgentdError::Relay(m) => m@,
    }
}

/// Whether two errors are of one sort.
pub open spec fn alike(a: AgentdError, b: AgentdError) -> bool {
    &&& a is InvalidAgentId == b is InvalidAgentId
    &&& a is InvalidEnvelope == b is InvalidEnvelope
    &&& a is Config == b is Config
    &&& a is DedupStore == b is DedupStore
    &&& a is Relay == b is Relay
}

/// An operator is told the reason in full, at the end, behind what sort of
/// error it is.
pub proof fn lemma_told(e: AgentdError, s: String)
    requires
        call_ensures(AgentdError::to_string, (&e,), s),
    ensures
        text::has_suffix(s@, reason(e)),
        e is InvalidAgentId ==> s@ == "invalid agent id: "@ + reason(e),
        e is InvalidEnvelope ==> s@ == "invalid event envelope: "@ + reason(e),
        e is Config ==> s@ == "configuration error: "@ + reason(e),
        e is DedupStore ==> s@ == "dedup store error: "@ + reason(e),
        e is Relay ==> s@ == "relay error: "@ + reason(e),
{
    assert(s@.skip(s@.len() - reason(e).len()) =~= reason(e));
}

/// Two errors that read the same are of one sort and have one reason; two of
/// one sort with one reason read the same.
pub proof fn lemma_told_apart(a: AgentdError, b: AgentdError, s: String, t: String)
    requires
        call_ensures(AgentdError::to_string, (&a,), s),
        call_ensures(AgentdError::to_string, (&b,), t),
    ensures
        s@ == t@ <==> alike(a, b) && reason(a) == reason(b),
{
    reveal_strlit("invalid agent id: ");
    reveal_strlit("invalid event envelope: ");
    reveal_strlit("configuration error: ");
    reveal_strlit("dedup store error: ");
    reveal_strlit("relay error: ");
    lemma_told(a, s);
    lemma_told(b, t);
    if s@ == t@ {
        assert(s@[0] == t@[0]);
        if a is InvalidAgentId || a is InvalidEnvelope {
            assert(s@[8] == t@[8]);
        }
        assert(alike(a, b));
        let n = s@.len() - reason(a).len();
        assert(s@.skip(n) =~= reason(a));
        assert(t@.skip(n) =~= reason(b));
    }
}

/// Each error is made with the reason that it is given.
pub proof fn lemma_made(given: String, e: AgentdError)
    ensures
        call_ensures(AgentdError::invalid_agent_id, (given,), e) ==> e is InvalidAgentId && reason(
            e,
        ) == given@,
        call_ensures(AgentdError::invalid_envelope, (given,), e) ==> e is InvalidEnvelope && reason(
            e,
        ) == given@,
        call_ensures(AgentdError::config, (given,), e) ==> e is Config && reason(e) == given@,
        call_ensures(AgentdError::dedup_store, (given,), e) ==> e is DedupStore && reason(e)
            == given@,
        call_ensures(AgentdError::relay, (given,), e) ==> e is Relay && reason(e) == given@,
{
}

} // verus!
