//! Laws of the log: what each record and each span says, and by what it is
//! filtered.

use vstd::prelude::*;

use crate::agent_id::AgentId;
use crate::error::AgentdError;
use crate::logging;
use crate::logging::events;
use crate::logging::{FieldModel, FieldValue, FieldValueModel, FilterChoice, Level, Record, Span};
use crate::text;

verus! {

/// Whether a field has a name and a text.
pub open spec fn is_text(f: FieldModel, name: Seq<char>, value: Seq<char>) -> bool {
    f.name == name && f.value == FieldValueModel::Text(value)
}

/// Whether a field has a name and a number that is not negative.
pub open spec fn is_unsigned(f: FieldModel, name: Seq<char>, value: int) -> bool {
    f.name == name && f.value == FieldValueModel::Unsigned(value)
}

/// Whether a field has a name and a number.
pub open spec fn is_signed(f: FieldModel, name: Seq<char>, value: int) -> bool {
    f.name == name && f.value == FieldValueModel::Signed(value)
}

/// The span of a dispatch names its agent, its event, its consumer and its
/// place in the stream.
pub proof fn lemma_dispatch_span(id: AgentId, event: &str, consumer: &str, seq: u64, s: Span)
    requires
        call_ensures(logging::dispatch_span, (&id, event, consumer, seq), s),
    ensures
        s@.name == "dispatch"@,
        s@.fields.len() == 4,
        is_text(s@.fields[0], "agent_id"@, id@),
        is_text(s@.fields[1], "event_id"@, event@),
        is_text(s@.fields[2], "consumer"@, consumer@),
        is_unsigned(s@.fields[3], "stream_sequence"@, seq as int),
{
}

/// The span of a handler names its path and its process.
pub proof fn lemma_handler_span(path: &str, pid: u32, s: Span)
    requires
        call_ensures(logging::handler_span, (path, pid), s),
    ensures
        s@.name == "handler"@,
        s@.fields.len() == 2,
        is_text(s@.fields[0], "handler_path"@, path@),
        is_unsigned(s@.fields[1], "handler_pid"@, pid as int),
{
}

/// What is told of the connection.
pub proof fn lemma_connection_records(url: &str, up: Record, down: Record)
    requires
        call_ensures(events::nats_connected, (url,), up),
        call_ensures(events::nats_disconnected, (), down),
    ensures
        up@.level == Level::Info,
        up@.fields.len() == 1,
        is_text(up@.fields[0], "nats_url"@, url@),
        down@.level == Level::Warn,
        down@.fields.len() == 0,
{
}

/// What is told of an agent names the agent, and of its consumer that too.
pub proof fn lemma_agent_records(
    id: AgentId,
    consumer: &str,
    added: Record,
    changed: Record,
    removed: Record,
    bound: Record,
)
    requires
        call_ensures(events::agent_registered, (&id,), added),
        call_ensures(events::agent_updated, (&id,), changed),
        call_ensures(events::agent_unregistered, (&id,), removed),
        call_ensures(events::consumer_bound, (&id, consumer), bound),
    ensures
        added@.message == "agent registered"@,
        changed@.message == "agent updated"@,
        removed@.message == "agent unregistered"@,
        bound@.message == "consumer bound"@,
        added@.fields.len() == 1 && is_text(added@.fields[0], "agent_id"@, id@),
        changed@.fields.len() == 1 && is_text(changed@.fields[0], "agent_id"@, id@),
        removed@.fields.len() == 1 && is_text(removed@.fields[0], "agent_id"@, id@),
        bound@.fields.len() == 2 && is_text(bound@.fields[0], "agent_id"@, id@),
        is_text(bound@.fields[1], "consumer"@, consumer@),
        added@.level == Level::Info && changed@.level == Level::Info,
        removed@.level == Level::Info && bound@.level == Level::Info,
{
}

/// What is told of a handler names it, its process, why it did not start, or
/// how it ended and how long it ran.
pub proof fn lemma_handler_records(
    path: &str,
    pid: u32,
    error: &str,
    status: i32,
    ms: u64,
    started: Record,
    failed: Record,
    ended: Record,
)
    requires
        call_ensures(events::handler_spawned, (path, pid), started),
        call_ensures(events::handler_spawn_failed, (path, error), failed),
        call_ensures(events::handler_exited, (status, ms), ended),
    ensures
        started@.message == "handler spawned"@,
        started@.fields.len() == 2 && is_text(started@.fields[0], "handler_path"@, path@),
        is_unsigned(started@.fields[1], "handler_pid"@, pid as int),
        failed@.message == "handler spawn failed"@,
        failed@.fields.len() == 2 && is_text(failed@.fields[0], "handler_path"@, path@),
        is_text(failed@.fields[1], "error"@, error@),
        ended@.message == "handler exited"@,
        ended@.fields.len() == 2 && is_signed(ended@.fields[0], "exit_status"@, status as int),
        is_unsigned(ended@.fields[1], "duration_ms"@, ms as int),
        started@.level == Level::Info,
        failed@.level == Level::Warn,
        ended@.level == Level::Info,
{
}

/// What is told of an event that cannot be dispatched, and of an answer that
/// was not confirmed, is why.
pub proof fn lemma_failure_records(why: &str, invalid: Record, unconfirmed: Record)
    requires
        call_ensures(events::invalid_event, (why,), invalid),
        call_ensures(events::ack_failure, (why,), unconfirmed),
    ensures
        invalid@.message == "invalid event"@,
        invalid@.fields.len() == 1 && is_text(invalid@.fields[0], "reason"@, why@),
        unconfirmed@.message == "ack failed"@,
        unconfirmed@.fields.len() == 1 && is_text(unconfirmed@.fields[0], "error"@, why@),
        invalid@.level == Level::Warn,
        unconfirmed@.level == Level::Warn,
{
}

/// What is told of a dispatch as it goes on.
pub proof fn lemma_dispatch_records(
    received: Record,
    hit: Record,
    dropped: Record,
    acked: Record,
)
    requires
        call_ensures(events::event_received, (), received),
        call_ensures(events::dedup_hit, (), hit),
        call_ensures(events::in_flight_duplicate_dropped, (), dropped),
        call_ensures(events::ack_success, (), acked),
    ensures
        received@.message == "event received"@,
        hit@.message == "dedup hit"@,
        dropped@.message == "in-flight duplicate dropped"@,
        acked@.message == "ack succeeded"@,
        received@.level == Level::Info && hit@.level == Level::Info && acked@.level == Level::Info,
        dropped@.level == Level::Warn,
{
}

/// The precedence of the filters. An override that parses is the filter,
/// whatever the level; else the level is, where it parses, and else there is
/// none. The operator is warned exactly of an override that does not parse, with
/// why.
pub proof fn lemma_precedence(
    over: Option<String>,
    over_error: Option<String>,
    level: &str,
    level_error: Option<String>,
    c: FilterChoice,
)
    requires
        call_ensures(logging::choose_filter, (over, over_error, level, level_error), c),
    ensures
        over is Some && over_error is None ==> c.directives is Ok && c.directives->Ok_0@
            == over->0@,
        !(over is Some && over_error is None) ==> (c.directives is Ok <==> level_error is None),
        !(over is Some && over_error is None) && c.directives is Ok ==> c.directives->Ok_0@
            == level@,
        c.directives is Err ==> c.directives->Err_0 is Config && text::has_suffix(
            c.directives->Err_0->Config_0@,
            level_error->0@,
        ),
        c.warning is Some <==> over is Some && over_error is Some,
        c.warning is Some ==> text::has_suffix(c.warning->0@, over_error->0@),
{
    if c.warning is Some {
        let w = c.warning->0@;
        let e = over_error->0@;
        assert(w.skip(w.len() - e.len()) =~= e);
    }
    if c.directives is Err {
        let m = c.directives->Err_0->Config_0@;
        let e = level_error->0@;
        assert(m.skip(m.len() - e.len()) =~= e);
    }
}

/// The filter that is built, by what the parser says: an override counts where
/// it is not blank, without the white space around it; the parser decides of
/// every text that it can take, and a text that it cannot take does not parse.
pub proof fn lemma_filter(env: Option<&str>, level: &str, c: FilterChoice)
    requires
        call_ensures(logging::build_filter, (env, level), c),
    ensures
        ({
            let counts = env matches Some(raw) && exists|i: int|
                0 <= i < raw@.len() && !text::is_white(#[trigger] raw@[i]);
            let over = text::trimmed(env->0@);
            let over_parses = logging::directives::parser_safe(over) && logging::filter_error(
                over,
            ) is None;
            let level_parses = logging::directives::parser_safe(level@) && logging::filter_error(
                level@,
            ) is None;
            &&& counts && over_parses ==> c.directives is Ok && c.directives->Ok_0@ == over
            &&& !(counts && over_parses) ==> (c.directives is Ok <==> level_parses)
            &&& !(counts && over_parses) && level_parses ==> c.directives->Ok_0@ == level@
            &&& c.warning is Some <==> counts && !over_parses
            &&& c.directives is Err ==> c.directives->Err_0 is Config
        }),
{
    if let Some(raw) = env {
        text::laws::lemma_blank(raw@);
    }
}

/// A record is written as it is modelled: with its level, its message and its
/// fields, in their order, each with its name and its value.
pub proof fn lemma_written(r: Record, i: int)
    ensures
        r@.level == r.level,
        r@.message == r.message@,
        r@.fields.len() == r.fields@.len(),
        0 <= i < r.fields@.len() ==> r@.fields[i].name == r.fields@[i].name@ && match r.fields@[i].value {
            FieldValue::Text(s) => r@.fields[i].value == FieldValueModel::Text(s@),
            FieldValue::Unsigned(n) => r@.fields[i].value == FieldValueModel::Unsigned(n as int),
            FieldValue::Signed(n) => r@.fields[i].value == FieldValueModel::Signed(n as int),
        },
{
}

/// A span is, in the same way.
pub proof fn lemma_span_written(s: Span, i: int)
    ensures
        s@.name == s.name@,
        s@.fields.len() == s.fields@.len(),
        0 <= i < s.fields@.len() ==> s@.fields[i] == s.fields@[i]@,
{
}

} // verus!
