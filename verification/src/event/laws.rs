//! Laws of the envelope.

use vstd::prelude::*;

use crate::error::AgentdError;
use crate::event;
use crate::event::EventEnvelope;
use crate::text;

verus! {

/// An envelope can be dispatched exactly where its version is 1 and its event
/// id holds a character that is not white. Nothing else in it counts.
pub proof fn lemma_dispatchable(envelope: EventEnvelope)
    ensures
        event::envelope_fault(envelope) is None <==> envelope.version == 1 && exists|i: int|
            0 <= i < envelope.event_id@.len() && !text::is_white(#[trigger] envelope.event_id@[i]),
{
    text::laws::lemma_blank(envelope.event_id@);
}

/// The daemon interprets the version and the event id alone: two envelopes that
/// agree in those are judged alike.
pub proof fn lemma_judged_alike(a: EventEnvelope, b: EventEnvelope)
    requires
        a.version == b.version,
        a.event_id@ == b.event_id@,
    ensures
        event::envelope_fault(a) == event::envelope_fault(b),
{
}

/// A message gives the envelope that it decodes to, unchanged, exactly where
/// it decodes to one that can be dispatched; else an error about the envelope.
pub proof fn lemma_parsed(
    decoded: Result<EventEnvelope, String>,
    r: Result<EventEnvelope, AgentdError>,
)
    requires
        call_ensures(EventEnvelope::parse, (decoded,), r),
    ensures
        r is Ok <==> decoded is Ok && decoded->Ok_0.version == 1 && exists|i: int|
            0 <= i < decoded->Ok_0.event_id@.len() && !text::is_white(
                #[trigger] decoded->Ok_0.event_id@[i],
            ),
        r is Ok ==> r->Ok_0 == decoded->Ok_0,
        r is Err ==> r->Err_0 is InvalidEnvelope,
        decoded is Err && r is Err ==> text::has_suffix(
            r->Err_0->InvalidEnvelope_0@,
            decoded->Err_0@,
        ),
{
    if decoded is Ok {
        lemma_dispatchable(decoded->Ok_0);
    } else {
        let m = r->Err_0->InvalidEnvelope_0@;
        let e = decoded->Err_0@;
        assert(m.skip(m.len() - e.len()) =~= e);
    }
}

/// Checking an envelope succeeds exactly where it can be dispatched.
pub proof fn lemma_validated(envelope: EventEnvelope, r: Result<(), AgentdError>)
    requires
        call_ensures(EventEnvelope::validate, (&envelope,), r),
    ensures
        r is Ok <==> envelope.version == 1 && exists|i: int|
            0 <= i < envelope.event_id@.len() && !text::is_white(#[trigger] envelope.event_id@[i]),
{
    lemma_dispatchable(envelope);
}

} // verus!
