//! The daemon's own configuration.
//!
//! It is kept apart from the registrations of agents, which the registry owns.

use vstd::prelude::*;
use vstd::string::*;

use crate::error::AgentdError;
use crate::files::FileRead;
use crate::text;
use crate::text::{glue, join};

pub mod laws;

verus! {

/// The configuration of the daemon. Every field has a default.
#[derive(Debug)]
pub struct DaemonConfig {
    /// Where the relay is.
    pub nats_url: String,
    /// The file with this machine's credentials for the relay.
    pub nats_creds: Option<String>,
    /// The stream that events are read from.
    pub stream_name: String,
    /// The directory of the registrations.
    pub agents_dir: Option<String>,
    /// The control socket.
    pub control_socket: Option<String>,
    /// The file of the store of completed events.
    pub dedup_path: Option<String>,
    /// The largest event that is accepted, in bytes.
    pub max_event_bytes: u64,
    /// How long completed events are remembered, in days. Longer than the
    /// stream keeps its messages.
    pub dedup_ttl_days: u64,
    /// How long the relay waits for an acknowledgement, in seconds.
    pub ack_wait_secs: u64,
    /// How often the relay is told that a handler is still at work, in
    /// seconds.
    pub ack_progress_interval_secs: u64,
    /// From how many seconds on a handler is called slow. No timeout.
    pub slow_handler_warn_secs: u64,
    /// The level, or the filter directives, of the log.
    pub log_level: String,
}

impl Default for DaemonConfig {
    fn default() -> (c: DaemonConfig)
        ensures
            c.nats_url@ == "nats://127.0.0.1:4222"@,
            c.nats_creds is None,
            c.stream_name@ == "AGENT_EVENTS"@,
            c.agents_dir is None,
            c.control_socket is None,
            c.dedup_path is None,
            c.max_event_bytes == 262144,
            c.dedup_ttl_days == 14,
            c.ack_wait_secs == 300,
            c.ack_progress_interval_secs == 90,
            c.slow_handler_warn_secs == 3600,
            c.log_level@ == "info"@,
            config_fault(c) is None,
    {
        DaemonConfig {
            nats_url: "nats://127.0.0.1:4222".to_owned(),
            nats_creds: None,
            stream_name: "AGENT_EVENTS".to_owned(),
            agents_dir: None,
            control_socket: None,
            dedup_path: None,
            max_event_bytes: 262144,
            dedup_ttl_days: 14,
            ack_wait_secs: 300,
            ack_progress_interval_secs: 90,
            slow_handler_warn_secs: 3600,
            log_level: "info".to_owned(),
        }
    }
}

/// What is wrong with a configuration, if anything is.
pub open spec fn config_fault(c: DaemonConfig) -> Option<Seq<char>> {
    if c.dedup_ttl_days == 0 {
        Some("dedup_ttl_days must be > 0"@)
    } else if c.max_event_bytes == 0 {
        Some("max_event_bytes must be > 0"@)
    } else if c.max_event_bytes > i32::MAX {
        Some("max_event_bytes must be <= 2147483647"@)
    } else if c.ack_progress_interval_secs >= c.ack_wait_secs {
        Some("ack_progress_interval_secs must be < ack_wait_secs"@)
    } else {
        None
    }
}

/// What a configuration file gives: the configuration it holds, or why it
/// gives none.
pub open spec fn load_outcome(path: Seq<char>, read: FileRead<DaemonConfig>) -> Result<
    DaemonConfig,
    Seq<char>,
> {
    match read {
        FileRead::Unreadable(e) => Err("cannot read "@ + path + ": "@ + e@),
        FileRead::Malformed(e) => Err("invalid config "@ + path + ": "@ + e@),
        FileRead::Parsed(c) => match config_fault(c) {
            Some(m) => Err(m),
            None => Ok(c),
        },
    }
}

/// `dirs::config_dir`: the directory of the user's configuration, if there is
/// one. A path that is not text is given as an error, in the form that it is
/// shown in. Which it is depends on the environment.
#[verifier::external_body]
fn user_config_dir() -> (r: Option<Result<String, String>>)
{
    dirs::config_dir().map(
        |p| p.into_os_string().into_string().map_err(|s| s.to_string_lossy().into_owned()),
    )
}

/// `dirs::data_dir`: the directory of the user's data, if there is
/// one. A path that is not text is given as an error, in the form that it is
/// shown in. Which it is depends on the environment.
#[verifier::external_body]
fn user_data_dir() -> (r: Option<Result<String, String>>)
{
    dirs::data_dir().map(
        |p| p.into_os_string().into_string().map_err(|s| s.to_string_lossy().into_owned()),
    )
}

/// `dirs::runtime_dir`: the directory of the user's session, if there is
/// one. A path that is not text is given as an error, in the form that it is
/// shown in. Which it is depends on the environment.
#[verifier::external_body]
fn user_runtime_dir() -> (r: Option<Result<String, String>>)
{
    dirs::runtime_dir().map(
        |p| p.into_os_string().into_string().map_err(|s| s.to_string_lossy().into_owned()),
    )
}

/// Whether `dirs::config_dir` may give `found`. It depends on the environment,
/// so two answers may differ.
pub closed spec fn is_config_dir(found: Option<Result<String, String>>) -> bool {
    call_ensures(user_config_dir, (), found)
}

/// Whether `dirs::data_dir` may give `found`.
pub closed spec fn is_data_dir(found: Option<Result<String, String>>) -> bool {
    call_ensures(user_data_dir, (), found)
}

/// Whether `dirs::runtime_dir` may give `found`.
pub closed spec fn is_runtime_dir(found: Option<Result<String, String>>) -> bool {
    call_ensures(user_runtime_dir, (), found)
}

/// Asks for a directory of the user.
fn found_by<F: Fn() -> Option<Result<String, String>>>(find: F) -> (r: Option<
    Result<String, String>,
>)
    requires
        find.requires(()),
    ensures
        find.ensures((), r),
{
    find()
}

/// What is said of a directory whose path is not text.
pub open spec fn not_text(shown: Seq<char>) -> Seq<char> {
    "path is not valid UTF-8: "@ + shown
}

/// Whether an error is about a directory whose path is not text.
pub open spec fn is_not_text(e: AgentdError) -> bool {
    e matches AgentdError::Config(m) && exists|shown: Seq<char>| m@ == #[trigger] not_text(shown)
}

/// What a directory of the user is taken for.
pub open spec fn user_dir_of(
    found: Option<Result<String, String>>,
    r: Result<Option<String>, AgentdError>,
) -> bool {
    match found {
        None => r == Ok::<Option<String>, AgentdError>(None),
        Some(Ok(dir)) => r == Ok::<Option<String>, AgentdError>(Some(dir)),
        Some(Err(shown)) => r is Err && (r->Err_0 matches AgentdError::Config(m) && m@ == not_text(
            shown@,
        )),
    }
}

/// A directory of the user, if there is one. One whose path is not text cannot
/// be named in a configuration, nor worked with.
pub fn user_dir(found: Option<Result<String, String>>) -> (r: Result<Option<String>, AgentdError>)
    ensures
        user_dir_of(found, r),
{
    match found {
        None => Ok(None),
        Some(Ok(dir)) => Ok(Some(dir)),
        Some(Err(shown)) => {
            let m = glue("path is not valid UTF-8: ", shown.as_str());
            Err(AgentdError::config(m))
        },
    }
}

/// A directory that may be unknown: the current one then.
pub open spec fn base_of(dir: Option<Seq<char>>) -> Seq<char> {
    match dir {
        Some(d) => d,
        None => Seq::empty(),
    }
}

/// A name in the daemon's own directory below a base.
pub open spec fn daemon_path(base: Option<Seq<char>>, name: Seq<char>) -> Seq<char> {
    text::joined(text::joined(base_of(base), "agentd"@), name)
}

fn below(base: Option<String>, name: &str) -> (r: String)
    ensures
        r@ == daemon_path(text::opt_view(base), name@),
{
    let dir = match base {
        Some(d) => d,
        None => String::new(),
    };
    assert(dir@ =~= base_of(text::opt_view(base)));
    join(join(dir.as_str(), "agentd").as_str(), name)
}

/// The path that is configured, or else a name in the daemon's own directory
/// below a base.
pub open spec fn configured_or(
    configured: Option<Seq<char>>,
    base: Option<Seq<char>>,
    name: Seq<char>,
) -> Seq<char> {
    match configured {
        Some(p) => p,
        None => daemon_path(base, name),
    }
}

/// The path that a name of the daemon resolves to: the configured one where
/// there is one, else the name below a directory of the user, unless the path
/// of that is not text.
pub open spec fn resolves_to(
    configured: Option<String>,
    name: Seq<char>,
    r: Result<String, AgentdError>,
) -> bool {
    match r {
        Ok(path) => match configured {
            Some(p) => path@ == p@,
            None => exists|base: Option<Seq<char>>| path@ == #[trigger] daemon_path(base, name),
        },
        Err(e) => configured is None && is_not_text(e),
    }
}

/// The path of a name of the daemon below the directory of the user that was
/// found, or below the current one where there is none.
pub open spec fn is_below(
    found: Option<Result<String, String>>,
    name: Seq<char>,
    r: Result<String, AgentdError>,
) -> bool {
    match found {
        None => r matches Ok(path) && path@ == daemon_path(None, name),
        Some(Ok(dir)) => r matches Ok(path) && path@ == daemon_path(Some(dir@), name),
        Some(Err(shown)) => r matches Err(AgentdError::Config(m)) && m@ == not_text(shown@),
    }
}

/// The control socket below the directory of the session, if one was found.
pub open spec fn is_in_session(
    found: Option<Result<String, String>>,
    r: Result<SocketChoice, AgentdError>,
) -> bool {
    match found {
        None => exists|data: Option<Result<String, String>>| #[trigger]
            is_data_dir(data) && is_in_data(data, r),
        Some(Ok(dir)) => r matches Ok(choice) && choice.warning is None && choice.path@
            == daemon_path(Some(dir@), "control.sock"@),
        Some(Err(shown)) => r matches Err(AgentdError::Config(m)) && m@ == not_text(shown@),
    }
}

/// The control socket below the directory of the user's data.
pub open spec fn is_in_data(
    found: Option<Result<String, String>>,
    r: Result<SocketChoice, AgentdError>,
) -> bool {
    match found {
        None => r matches Ok(choice) && choice.warning is Some && choice.path@ == daemon_path(
            None,
            "control.sock"@,
        ),
        Some(Ok(dir)) => r matches Ok(choice) && choice.warning is Some && choice.path@
            == daemon_path(Some(dir@), "control.sock"@),
        Some(Err(shown)) => r matches Err(AgentdError::Config(m)) && m@ == not_text(shown@),
    }
}

fn resolve(configured: &Option<String>, base: Option<String>, name: &str) -> (r: String)
    ensures
        r@ == configured_or(text::opt_view(*configured), text::opt_view(base), name@),
{
    match configured {
        Some(p) => p.clone(),
        None => below(base, name),
    }
}

/// Where the configuration is looked for unless the caller says so.
pub fn default_config_path() -> (r: Result<String, AgentdError>)
    ensures
        resolves_to(None, "agentd.toml"@, r),
        exists|found: Option<Result<String, String>>| #[trigger]
            is_config_dir(found) && is_below(found, "agentd.toml"@, r),
{
    let found = found_by(user_config_dir);
    assert(is_config_dir(found));
    match user_dir(found) {
        Err(e) => Err(e),
        Ok(base) => {
            let ghost b = text::opt_view(base);
            let path = default_config_path_in(base);
            assert(path@ == daemon_path(b, "agentd.toml"@));
            Ok(path)
        },
    }
}

/// Where the configuration is looked for below the user's configuration.
pub fn default_config_path_in(base: Option<String>) -> (r: String)
    ensures
        r@ == daemon_path(text::opt_view(base), "agentd.toml"@),
{
    below(base, "agentd.toml")
}

/// The control socket, and what to warn of where it is not in a directory of
/// the session.
#[derive(Debug)]
pub struct SocketChoice {
    pub path: String,
    pub warning: Option<String>,
}

/// Where the control socket is: where it is configured, else in the directory
/// of the session, else, with a warning, in that of the user's data.
pub open spec fn socket_choice(
    configured: Option<Seq<char>>,
    runtime: Option<Seq<char>>,
    data: Option<Seq<char>>,
    choice: SocketChoice,
) -> bool {
    match (configured, runtime) {
        (Some(p), _) => choice.path@ == p && choice.warning is None,
        (None, Some(_)) => choice.path@ == daemon_path(runtime, "control.sock"@)
            && choice.warning is None,
        (None, None) => {
            &&& choice.path@ == daemon_path(data, "control.sock"@)
            &&& choice.warning matches Some(w) && w@
                == "no runtime directory; control socket falls back to "@ + choice.path@
        },
    }
}

impl DaemonConfig {
    /// Turns what reading a configuration file gave into a configuration that
    /// can be used.
    pub fn load(path: &str, read: FileRead<DaemonConfig>) -> (r: Result<DaemonConfig, AgentdError>)
        ensures
            match load_outcome(path@, read) {
                Ok(c) => r == Ok::<DaemonConfig, AgentdError>(c),
                Err(m) => r matches Err(AgentdError::Config(n)) && n@ == m,
            },
    {
        let (what, e) = match read {
            FileRead::Unreadable(e) => ("cannot read ", e),
            FileRead::Malformed(e) => ("invalid config ", e),
            FileRead::Parsed(c) => {
                return match c.validate() {
                    Ok(_) => Ok(c),
                    Err(e) => Err(e),
                };
            },
        };
        let mut m = what.to_owned();
        m.append(path);
        m.append(": ");
        m.append(e.as_str());
        Err(AgentdError::config(m))
    }

    /// Checks that the values make sense, alone and together.
    pub fn validate(&self) -> (r: Result<(), AgentdError>)
        ensures
            match config_fault(*self) {
                Some(m) => r matches Err(AgentdError::Config(n)) && n@ == m,
                None => r is Ok,
            },
    {
        if self.dedup_ttl_days == 0 {
            return Err(AgentdError::config("dedup_ttl_days must be > 0".to_owned()));
        }
        if self.max_event_bytes == 0 {
            return Err(AgentdError::config("max_event_bytes must be > 0".to_owned()));
        }
        if self.max_event_bytes > i32::MAX as u64 {
            return Err(AgentdError::config("max_event_bytes must be <= 2147483647".to_owned()));
        }
        if self.ack_progress_interval_secs >= self.ack_wait_secs {
            return Err(
                AgentdError::config("ack_progress_interval_secs must be < ack_wait_secs".to_owned()),
            );
        }
        Ok(())
    }

    /// The directory of the registrations.
    pub fn resolved_agents_dir(&self) -> (r: Result<String, AgentdError>)
        ensures
            resolves_to(self.agents_dir, "agents.d"@, r),
            self.agents_dir is None ==> exists|found: Option<Result<String, String>>| #[trigger]
                is_config_dir(found) && is_below(found, "agents.d"@, r),
    {
        if self.agents_dir.is_some() {
            return Ok(self.agents_dir_in(None));
        }
        let found = found_by(user_config_dir);
        assert(is_config_dir(found));
        match user_dir(found) {
            Err(e) => Err(e),
            Ok(base) => {
                let ghost b = text::opt_view(base);
                let path = self.agents_dir_in(base);
                assert(path@ == daemon_path(b, "agents.d"@));
                Ok(path)
            },
        }
    }

    /// The directory of the registrations, given that of the user's
    /// configuration.
    pub fn agents_dir_in(&self, base: Option<String>) -> (r: String)
        ensures
            r@ == configured_or(
                text::opt_view(self.agents_dir),
                text::opt_view(base),
                "agents.d"@,
            ),
    {
        resolve(&self.agents_dir, base, "agents.d")
    }

    /// The file of the store of completed events.
    pub fn resolved_dedup_path(&self) -> (r: Result<String, AgentdError>)
        ensures
            resolves_to(self.dedup_path, "dedup.db"@, r),
            self.dedup_path is None ==> exists|found: Option<Result<String, String>>| #[trigger]
                is_data_dir(found) && is_below(found, "dedup.db"@, r),
    {
        if self.dedup_path.is_some() {
            return Ok(self.dedup_path_in(None));
        }
        let found = found_by(user_data_dir);
        assert(is_data_dir(found));
        match user_dir(found) {
            Err(e) => Err(e),
            Ok(base) => {
                let ghost b = text::opt_view(base);
                let path = self.dedup_path_in(base);
                assert(path@ == daemon_path(b, "dedup.db"@));
                Ok(path)
            },
        }
    }

    /// The file of the store of completed events, given the directory of the
    /// user's data.
    pub fn dedup_path_in(&self, base: Option<String>) -> (r: String)
        ensures
            r@ == configured_or(
                text::opt_view(self.dedup_path),
                text::opt_view(base),
                "dedup.db"@,
            ),
    {
        resolve(&self.dedup_path, base, "dedup.db")
    }

    /// The control socket.
    pub fn resolved_socket(&self) -> (r: Result<SocketChoice, AgentdError>)
        ensures
            match r {
                Ok(choice) => exists|runtime: Option<Seq<char>>, data: Option<Seq<char>>|
                    #[trigger] socket_choice(
                        text::opt_view(self.control_socket),
                        runtime,
                        data,
                        choice,
                    ),
                Err(e) => self.control_socket is None && is_not_text(e),
            },
            self.control_socket is None ==> exists|found: Option<Result<String, String>>| #[trigger]
                is_runtime_dir(found) && is_in_session(found, r),
    {
        let mut runtime: Option<String> = None;
        let mut data: Option<String> = None;
        if self.control_socket.is_none() {
            let session = found_by(user_runtime_dir);
            assert(is_runtime_dir(session));
            match user_dir(session) {
                Err(e) => {
                    return Err(e);
                },
                Ok(found) => {
                    runtime = found;
                },
            }
            if runtime.is_none() {
                let own = found_by(user_data_dir);
                assert(is_data_dir(own));
                match user_dir(own) {
                    Err(e) => {
                        return Err(e);
                    },
                    Ok(found) => {
                        data = found;
                    },
                }
            }
        }
        let ghost a = text::opt_view(runtime);
        let ghost b = text::opt_view(data);
        let choice = self.socket_in(runtime, data);
        assert(socket_choice(text::opt_view(self.control_socket), a, b, choice));
        Ok(choice)
    }

    /// The control socket, given the directories of the session and of the
    /// user's data.
    pub fn socket_in(&self, runtime: Option<String>, data: Option<String>) -> (r: SocketChoice)
        ensures
            socket_choice(
                text::opt_view(self.control_socket),
                text::opt_view(runtime),
                text::opt_view(data),
                r,
            ),
    {
        match (&self.control_socket, runtime) {
            (Some(p), _) => SocketChoice { path: p.clone(), warning: None },
            (None, Some(dir)) => SocketChoice {
                path: below(Some(dir), "control.sock"),
                warning: None,
            },
            (None, None) => {
                let path = below(data, "control.sock");
                let warning = glue(
                    "no runtime directory; control socket falls back to ",
                    path.as_str(),
                );
                SocketChoice { path, warning: Some(warning) }
            },
        }
    }

    /// How long completed events are remembered, in seconds.
    pub fn dedup_ttl(&self) -> (secs: u64)
        requires
            self.dedup_ttl_days * 86400 <= u64::MAX,
        ensures
            secs == self.dedup_ttl_days * 86400,
    {
        self.dedup_ttl_days * 24 * 3600
    }
}

/// Whether a credentials file is open to others than its owner, going by its
/// permission bits.
pub fn too_open(mode: u32) -> (r: bool)
    ensures
        r == (mode & 0o077 != 0),
{
    mode & 0o077 != 0
}

/// What to warn of where a credentials file is open to others. The contents of
/// the file are never looked at.
pub fn creds_warning(path: &str, mode: u32) -> (r: Option<String>)
    ensures
        match r {
            Some(w) => mode & 0o077 != 0 && w@ == "credentials file "@ + path@
                + " is accessible by others; it should have mode 0600"@,
            None => mode & 0o077 == 0,
        },
{
    if too_open(mode) {
        let mut w = "credentials file ".to_owned();
        w.append(path);
        w.append(" is accessible by others; it should have mode 0600");
        Some(w)
    } else {
        None
    }
}

// ---------------------------------------------------------------------------
// Laws
// ---------------------------------------------------------------------------

/// In a valid configuration the relay hears of a handler at work before it
/// gives the delivery up, and an event's size fits the stream's limit.
pub proof fn lemma_valid_config(c: DaemonConfig)
    requires
        config_fault(c) is None,
    ensures
        c.ack_progress_interval_secs < c.ack_wait_secs,
        0 < c.max_event_bytes <= i32::MAX,
        c.dedup_ttl_days > 0,
{
}

} // verus!
