//! One function for each event of the daemon's life that must be logged.

use vstd::prelude::*;

use crate::agent_id::AgentId;
use crate::logging;
use crate::logging::{
    plain, signed_field, text_field, unsigned_field, with_one, with_two, Level, Record, RecordModel,
};

verus! {

// ---------------------------------------------------------------------------
// Relay and registry lifecycle
// ---------------------------------------------------------------------------

/// The connection to the relay stands.
pub fn nats_connected(url: &str) -> (r: Record)
    ensures
        r@ == logging::record_of(
            Level::Info,
            "nats connected"@,
            seq![logging::text_of("nats_url"@, url@)],
        ),
{
    with_one(Level::Info, "nats connected", text_field("nats_url", url))
}

/// The connection to the relay is lost.
pub fn nats_disconnected() -> (r: Record)
    ensures
        r@ == logging::record_of(Level::Warn, "nats disconnected"@, seq![]),
{
    plain(Level::Warn, "nats disconnected")
}

/// An agent was added.
pub fn agent_registered(agent_id: &AgentId) -> (r: Record)
    ensures
        r@ == agent_registered_of(agent_id@),
{
    with_one(Level::Info, "agent registered", text_field("agent_id", agent_id.as_str()))
}

/// The model of the record of an added agent.
pub open spec fn agent_registered_of(agent: Seq<char>) -> RecordModel {
    logging::record_of(Level::Info, "agent registered"@, seq![logging::text_of("agent_id"@, agent)])
}

/// An agent changed.
pub fn agent_updated(agent_id: &AgentId) -> (r: Record)
    ensures
        r@ == agent_updated_of(agent_id@),
{
    with_one(Level::Info, "agent updated", text_field("agent_id", agent_id.as_str()))
}

/// The model of the record of a changed agent.
pub open spec fn agent_updated_of(agent: Seq<char>) -> RecordModel {
    logging::record_of(Level::Info, "agent updated"@, seq![logging::text_of("agent_id"@, agent)])
}

/// An agent was removed.
pub fn agent_unregistered(agent_id: &AgentId) -> (r: Record)
    ensures
        r@ == agent_unregistered_of(agent_id@),
{
    with_one(Level::Info, "agent unregistered", text_field("agent_id", agent_id.as_str()))
}

/// The model of the record of a removed agent.
pub open spec fn agent_unregistered_of(agent: Seq<char>) -> RecordModel {
    logging::record_of(Level::Info, "agent unregistered"@, seq![logging::text_of("agent_id"@, agent)])
}

/// An agent's consumer is bound.
pub fn consumer_bound(agent_id: &AgentId, consumer: &str) -> (r: Record)
    ensures
        r@ == consumer_bound_of(agent_id@, consumer@),
{
    with_two(
        Level::Info,
        "consumer bound",
        text_field("agent_id", agent_id.as_str()),
        text_field("consumer", consumer),
    )
}

/// The model of the record of a bound consumer.
pub open spec fn consumer_bound_of(agent: Seq<char>, consumer: Seq<char>) -> RecordModel {
    logging::record_of(
        Level::Info,
        "consumer bound"@,
        seq![logging::text_of("agent_id"@, agent), logging::text_of("consumer"@, consumer)],
    )
}

// ---------------------------------------------------------------------------
// Dispatch lifecycle
// ---------------------------------------------------------------------------

/// An event passed every check and is about to be dispatched.
pub fn event_received() -> (r: Record)
    ensures
        r@ == logging::record_of(Level::Info, "event received"@, seq![]),
{
    plain(Level::Info, "event received")
}

/// The event completed before; the handler is skipped.
pub fn dedup_hit() -> (r: Record)
    ensures
        r@ == logging::record_of(Level::Info, "dedup hit"@, seq![]),
{
    plain(Level::Info, "dedup hit")
}

/// The event is being handled right now; this copy of it is dropped.
pub fn in_flight_duplicate_dropped() -> (r: Record)
    ensures
        r@ == logging::record_of(Level::Warn, "in-flight duplicate dropped"@, seq![]),
{
    plain(Level::Warn, "in-flight duplicate dropped")
}

/// The event cannot be dispatched at all.
pub fn invalid_event(reason: &str) -> (r: Record)
    ensures
        r@ == invalid_event_of(reason@),
{
    with_one(Level::Warn, "invalid event", text_field("reason", reason))
}

/// The model of the record of an invalid event.
pub open spec fn invalid_event_of(reason: Seq<char>) -> RecordModel {
    logging::record_of(Level::Warn, "invalid event"@, seq![logging::text_of("reason"@, reason)])
}

/// A handler process started.
pub fn handler_spawned(handler_path: &str, pid: u32) -> (r: Record)
    ensures
        r@ == handler_spawned_of(handler_path@, pid as int),
{
    with_two(
        Level::Info,
        "handler spawned",
        text_field("handler_path", handler_path),
        unsigned_field("handler_pid", pid as u64),
    )
}

/// The model of the record of a started handler.
pub open spec fn handler_spawned_of(handler_path: Seq<char>, pid: int) -> RecordModel {
    logging::record_of(
        Level::Info,
        "handler spawned"@,
        seq![logging::text_of("handler_path"@, handler_path), logging::unsigned_of("handler_pid"@, pid)],
    )
}

/// A handler process could not be started.
pub fn handler_spawn_failed(handler_path: &str, error: &str) -> (r: Record)
    ensures
        r@ == handler_spawn_failed_of(handler_path@, error@),
{
    with_two(
        Level::Warn,
        "handler spawn failed",
        text_field("handler_path", handler_path),
        text_field("error", error),
    )
}

/// The model of the record of a handler that did not start.
pub open spec fn handler_spawn_failed_of(handler_path: Seq<char>, error: Seq<char>) -> RecordModel {
    logging::record_of(
        Level::Warn,
        "handler spawn failed"@,
        seq![logging::text_of("handler_path"@, handler_path), logging::text_of("error"@, error)],
    )
}

/// A handler process ended.
pub fn handler_exited(exit_status: i32, duration_ms: u64) -> (r: Record)
    ensures
        r@ == handler_exited_of(exit_status as int, duration_ms as int),
{
    with_two(
        Level::Info,
        "handler exited",
        signed_field("exit_status", exit_status as i64),
        unsigned_field("duration_ms", duration_ms),
    )
}

/// The model of the record of an ended handler.
pub open spec fn handler_exited_of(exit_status: int, duration_ms: int) -> RecordModel {
    logging::record_of(
        Level::Info,
        "handler exited"@,
        seq![logging::signed_of("exit_status"@, exit_status), logging::unsigned_of("duration_ms"@, duration_ms)],
    )
}

/// The relay confirmed the final acknowledgement.
pub fn ack_success() -> (r: Record)
    ensures
        r@ == logging::record_of(Level::Info, "ack succeeded"@, seq![]),
{
    plain(Level::Info, "ack succeeded")
}

/// The relay did not confirm the final acknowledgement.
pub fn ack_failure(error: &str) -> (r: Record)
    ensures
        r@ == ack_failure_of(error@),
{
    with_one(Level::Warn, "ack failed", text_field("error", error))
}

/// The model of the record of a failed acknowledgement.
pub open spec fn ack_failure_of(error: Seq<char>) -> RecordModel {
    logging::record_of(Level::Warn, "ack failed"@, seq![logging::text_of("error"@, error)])
}

} // verus!
