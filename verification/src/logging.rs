//! What the daemon logs: the records, the spans they stand in, and the choice
//! of the log filter.
//!
//! Every lifecycle step logs through one of the functions of this module, so
//! that the vocabulary of fields stays consistent. None of them takes a
//! credential: of credentials only the path is ever logged.

use tracing_subscriber::EnvFilter;
use vstd::prelude::*;
use vstd::string::*;

use crate::agent_id::AgentId;
use crate::error::AgentdError;
use crate::text;
use crate::text::{blank, quote_str, trim};

pub mod directives;
pub mod events;
pub mod laws;

use directives::can_be_parsed;

verus! {

/// How severe a record is.
#[derive(Debug, Clone, Copy, PartialEq, Eq, Structural)]
pub enum Level {
    Debug,
    Info,
    Warn,
    Error,
}

/// The value of one field.
#[derive(Debug)]
pub enum FieldValue {
    Text(String),
    Unsigned(u64),
    Signed(i64),
}

/// The model of a field's value.
pub enum FieldValueModel {
    Text(Seq<char>),
    Unsigned(int),
    Signed(int),
}

impl View for FieldValue {
    type V = FieldValueModel;

    open spec fn view(&self) -> FieldValueModel {
        match self {
            FieldValue::Text(s) => FieldValueModel::Text(s@),
            FieldValue::Unsigned(n) => FieldValueModel::Unsigned(*n as int),
            FieldValue::Signed(n) => FieldValueModel::Signed(*n as int),
        }
    }
}

/// One structured field.
#[derive(Debug)]
pub struct Field {
    pub name: &'static str,
    pub value: FieldValue,
}

/// The model of a field.
pub struct FieldModel {
    pub name: Seq<char>,
    pub value: FieldValueModel,
}

impl View for Field {
    type V = FieldModel;

    open spec fn view(&self) -> FieldModel {
        FieldModel { name: self.name@, value: self.value@ }
    }
}

/// The models of a list of fields.
pub open spec fn fields_view(fields: Seq<Field>) -> Seq<FieldModel> {
    fields.map_values(|f: Field| f@)
}

/// A text field.
pub open spec fn text_of(name: Seq<char>, value: Seq<char>) -> FieldModel {
    FieldModel { name, value: FieldValueModel::Text(value) }
}

/// An unsigned field.
pub open spec fn unsigned_of(name: Seq<char>, value: int) -> FieldModel {
    FieldModel { name, value: FieldValueModel::Unsigned(value) }
}

/// A signed field.
pub open spec fn signed_of(name: Seq<char>, value: int) -> FieldModel {
    FieldModel { name, value: FieldValueModel::Signed(value) }
}

/// One log record.
#[derive(Debug)]
pub struct Record {
    pub level: Level,
    pub message: String,
    pub fields: Vec<Field>,
}

/// The model of a record.
#[verifier::ext_equal]
pub struct RecordModel {
    pub level: Level,
    pub message: Seq<char>,
    pub fields: Seq<FieldModel>,
}

impl View for Record {
    type V = RecordModel;

    open spec fn view(&self) -> RecordModel {
        RecordModel {
            level: self.level,
            message: self.message@,
            fields: fields_view(self.fields@),
        }
    }
}

/// The models of a list of records.
pub open spec fn records_view(records: Seq<Record>) -> Seq<RecordModel> {
    records.map_values(|r: Record| r@)
}

/// A record, by its parts.
pub open spec fn record_of(
    level: Level,
    message: Seq<char>,
    fields: Seq<FieldModel>,
) -> RecordModel {
    RecordModel { level, message, fields }
}

/// A span: the fields that every record inside it inherits.
#[derive(Debug)]
pub struct Span {
    pub name: &'static str,
    pub fields: Vec<Field>,
}

/// The model of a span.
#[verifier::ext_equal]
pub struct SpanModel {
    pub name: Seq<char>,
    pub fields: Seq<FieldModel>,
}

impl View for Span {
    type V = SpanModel;

    open spec fn view(&self) -> SpanModel {
        SpanModel { name: self.name@, fields: fields_view(self.fields@) }
    }
}

pub(crate) fn text_field(name: &'static str, value: &str) -> (f: Field)
    ensures
        f@ == text_of(name@, value@),
{
    Field { name, value: FieldValue::Text(value.to_owned()) }
}

pub(crate) fn unsigned_field(name: &'static str, value: u64) -> (f: Field)
    ensures
        f@ == unsigned_of(name@, value as int),
{
    Field { name, value: FieldValue::Unsigned(value) }
}

pub(crate) fn signed_field(name: &'static str, value: i64) -> (f: Field)
    ensures
        f@ == signed_of(name@, value as int),
{
    Field { name, value: FieldValue::Signed(value) }
}

/// A record without fields.
pub(crate) fn plain(level: Level, message: &str) -> (r: Record)
    ensures
        r@ == record_of(level, message@, seq![]),
{
    let r = Record { level, message: message.to_owned(), fields: Vec::new() };
    assert(fields_view(r.fields@) =~= seq![]);
    r
}

/// A record with one field.
pub(crate) fn with_one(level: Level, message: &str, a: Field) -> (r: Record)
    ensures
        r@ == record_of(level, message@, seq![a@]),
{
    let mut fields: Vec<Field> = Vec::new();
    fields.push(a);
    assert(fields_view(fields@) =~= seq![a@]);
    Record { level, message: message.to_owned(), fields }
}

/// A record with two fields.
pub(crate) fn with_two(level: Level, message: &str, a: Field, b: Field) -> (r: Record)
    ensures
        r@ == record_of(level, message@, seq![a@, b@]),
{
    let mut fields: Vec<Field> = Vec::new();
    fields.push(a);
    fields.push(b);
    assert(fields_view(fields@) =~= seq![a@, b@]);
    Record { level, message: message.to_owned(), fields }
}

/// A record with three fields.
pub(crate) fn with_three(level: Level, message: &str, a: Field, b: Field, c: Field) -> (r: Record)
    ensures
        r@ == record_of(level, message@, seq![a@, b@, c@]),
{
    let mut fields: Vec<Field> = Vec::new();
    fields.push(a);
    fields.push(b);
    fields.push(c);
    assert(fields_view(fields@) =~= seq![a@, b@, c@]);
    Record { level, message: message.to_owned(), fields }
}

// ---------------------------------------------------------------------------
// Spans
// ---------------------------------------------------------------------------

/// The span of one dispatch: its records inherit the agent, the event, the
/// consumer and the position in the stream.
pub fn dispatch_span(agent_id: &AgentId, event_id: &str, consumer: &str, stream_sequence: u64) -> (s:
    Span)
    ensures
        s@ == dispatch_span_of(agent_id@, event_id@, consumer@, stream_sequence as int),
{
    let mut fields: Vec<Field> = Vec::new();
    fields.push(text_field("agent_id", agent_id.as_str()));
    fields.push(text_field("event_id", event_id));
    fields.push(text_field("consumer", consumer));
    fields.push(unsigned_field("stream_sequence", stream_sequence));
    let s = Span { name: "dispatch", fields };
    assert(s@ =~= dispatch_span_of(agent_id@, event_id@, consumer@, stream_sequence as int));
    s
}

/// The model of a dispatch span.
pub open spec fn dispatch_span_of(
    agent: Seq<char>,
    event_id: Seq<char>,
    consumer: Seq<char>,
    stream_sequence: int,
) -> SpanModel {
    SpanModel {
        name: "dispatch"@,
        fields: seq![
            text_of("agent_id"@, agent),
            text_of("event_id"@, event_id),
            text_of("consumer"@, consumer),
            unsigned_of("stream_sequence"@, stream_sequence),
        ],
    }
}

/// The span of one handler, a child of its dispatch span: its records inherit
/// the handler's path and process id besides the dispatch fields.
pub fn handler_span(handler_path: &str, pid: u32) -> (s: Span)
    ensures
        s@ == handler_span_of(handler_path@, pid as int),
{
    let mut fields: Vec<Field> = Vec::new();
    fields.push(text_field("handler_path", handler_path));
    fields.push(unsigned_field("handler_pid", pid as u64));
    let s = Span { name: "handler", fields };
    assert(s@ =~= handler_span_of(handler_path@, pid as int));
    s
}

/// The model of a handler span.
pub open spec fn handler_span_of(handler_path: Seq<char>, pid: int) -> SpanModel {
    SpanModel {
        name: "handler"@,
        fields: seq![text_of("handler_path"@, handler_path), unsigned_of("handler_pid"@, pid)],
    }
}

// ---------------------------------------------------------------------------
// The log filter
// ---------------------------------------------------------------------------

/// Why the filter directives do not parse, in the parser's words; nothing
/// where they do.
pub uninterp spec fn filter_error(directives: Seq<char>) -> Option<Seq<char>>;

/// `EnvFilter::try_new` on filter directives: the text of its error, or
/// nothing where it builds a filter. Which directives parse is left to the
/// parser; its answer depends on the directives alone. It panics where it cuts
/// a directive inside a character.
#[verifier::external_body]
fn filter_fault(directives: &str) -> (r: Option<String>)
    requires
        directives::parser_safe(directives@),
    ensures
        match r {
            Some(e) => filter_error(directives@) == Some(e@),
            None => filter_error(directives@) is None,
        },
{
    EnvFilter::try_new(directives).err().map(|e| e.to_string())
}

/// What is wrong with filter directives, if anything is: what the parser says,
/// where it can take them.
pub open spec fn directives_error(directives: Seq<char>) -> Option<Seq<char>> {
    if directives::parser_safe(directives) {
        filter_error(directives)
    } else {
        Some("white space before a directive misplaces its parts"@)
    }
}

/// What is wrong with filter directives, if anything is.
fn directives_fault(directives: &str) -> (r: Option<String>)
    ensures
        text::opt_view(r) == directives_error(directives@),
{
    if can_be_parsed(directives) {
        filter_fault(directives)
    } else {
        Some("white space before a directive misplaces its parts".to_owned())
    }
}

/// The filter chosen for the daemon's log.
#[derive(Debug)]
pub struct FilterChoice {
    /// What to tell the operator about an override that was ignored.
    pub warning: Option<String>,
    /// The directives to filter by.
    pub directives: Result<String, AgentdError>,
}

/// An override that counts: the trimmed text, unless it is blank.
pub open spec fn effective_override(env: Option<Seq<char>>) -> Option<Seq<char>> {
    match env {
        Some(raw) if !text::is_blank(raw) => Some(text::trimmed(raw)),
        _ => None,
    }
}

/// What is said about an override that does not parse.
pub open spec fn ignored_warning(raw: Seq<char>, error: Seq<char>) -> Seq<char> {
    "agentd: ignoring invalid RUST_LOG="@ + text::debug_str(raw) + ": "@ + error
}

/// The precedence of the filters: an override that parses wins; one that does
/// not is reported and the configured level stands in; a configured level that
/// does not parse is a configuration error.
pub open spec fn filter_choice(
    choice: FilterChoice,
    over: Option<Seq<char>>,
    over_error: Option<Seq<char>>,
    level: Seq<char>,
    level_error: Option<Seq<char>>,
) -> bool {
    if over is Some && over_error is None {
        &&& choice.warning is None
        &&& choice.directives matches Ok(d) && d@ == over->0
    } else {
        &&& match choice.warning {
            Some(w) => over is Some && w@ == ignored_warning(over->0, over_error->0),
            None => over is None,
        }
        &&& match choice.directives {
            Ok(d) => level_error is None && d@ == level,
            Err(e) => level_error is Some && (e matches AgentdError::Config(m) && m@
                == "invalid log_level filter "@ + text::debug_str(level) + ": "@ + level_error->0),
        }
    }
}

/// Chooses between an override and the configured level, given what the parser
/// says of either.
pub fn choose_filter(
    over: Option<String>,
    over_error: Option<String>,
    level: &str,
    level_error: Option<String>,
) -> (choice: FilterChoice)
    ensures
        filter_choice(
            choice,
            text::opt_view(over),
            text::opt_view(over_error),
            level@,
            text::opt_view(level_error),
        ),
{
    let mut warning: Option<String> = None;
    if let Some(raw) = over {
        match over_error {
            None => {
                return FilterChoice { warning: None, directives: Ok(raw) };
            },
            Some(e) => {
                let mut w = "agentd: ignoring invalid RUST_LOG=".to_owned();
                w.append(quote_str(raw.as_str()).as_str());
                w.append(": ");
                w.append(e.as_str());
                warning = Some(w);
            },
        }
    }
    match level_error {
        None => FilterChoice { warning, directives: Ok(level.to_owned()) },
        Some(e) => {
            let mut m = "invalid log_level filter ".to_owned();
            m.append(quote_str(level).as_str());
            m.append(": ");
            m.append(e.as_str());
            FilterChoice { warning, directives: Err(AgentdError::config(m)) }
        },
    }
}

/// Builds the log filter from the environment's override and the configured
/// level. A blank override counts as none, and a text that the parser cannot
/// take as one that does not parse. The configured level is not looked at where
/// the override parses.
pub fn build_filter(env: Option<&str>, config_level: &str) -> (choice: FilterChoice)
    ensures
        ({
            let over = effective_override(
                match env {
                    Some(s) => Some(s@),
                    None => None,
                },
            );
            filter_choice(
                choice,
                over,
                match over {
                    Some(raw) => directives_error(raw),
                    None => None,
                },
                config_level@,
                directives_error(config_level@),
            )
        }),
{
    let mut over: Option<String> = None;
    let mut over_error: Option<String> = None;
    if let Some(raw) = env {
        if !blank(raw) {
            let s = trim(raw);
            over_error = directives_fault(s.as_str());
            over = Some(s);
        }
    }
    if over.is_some() && over_error.is_none() {
        return choose_filter(over, None, config_level, None);
    }
    let level_error = directives_fault(config_level);
    choose_filter(over, over_error, config_level, level_error)
}

} // verus!
