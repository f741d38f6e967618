//! Laws of the configuration, told by its fields.

use vstd::prelude::*;

use crate::config;
use crate::config::{DaemonConfig, SocketChoice};
use crate::error::AgentdError;
use crate::files::FileRead;
use crate::text;

verus! {

/// A configuration is valid exactly where completed events are remembered for a
/// day at least, events have a size that fits the stream's limit, and the relay
/// hears of a handler at work before it gives the delivery up. Nothing else in
/// it counts.
pub proof fn lemma_valid_iff(c: DaemonConfig)
    ensures
        config::config_fault(c) is None <==> {
            &&& 1 <= c.dedup_ttl_days
            &&& 1 <= c.max_event_bytes <= 2147483647
            &&& c.ack_progress_interval_secs < c.ack_wait_secs
        },
{
}

/// Checking a configuration succeeds exactly where it is valid.
pub proof fn lemma_validated(c: DaemonConfig, r: Result<(), AgentdError>)
    requires
        call_ensures(DaemonConfig::validate, (&c,), r),
    ensures
        r is Ok <==> {
            &&& 1 <= c.dedup_ttl_days
            &&& 1 <= c.max_event_bytes <= 2147483647
            &&& c.ack_progress_interval_secs < c.ack_wait_secs
        },
        r is Err ==> r->Err_0 is Config,
{
}

/// A file gives the configuration that it holds, unchanged, exactly where it
/// could be read and holds a valid one.
pub proof fn lemma_loaded(
    path: &str,
    read: FileRead<DaemonConfig>,
    r: Result<DaemonConfig, AgentdError>,
)
    requires
        call_ensures(DaemonConfig::load, (path, read), r),
    ensures
        r is Ok <==> (read matches FileRead::Parsed(c) && 1 <= c.dedup_ttl_days && 1
            <= c.max_event_bytes <= 2147483647 && c.ack_progress_interval_secs < c.ack_wait_secs),
        r is Ok ==> r->Ok_0 == read->Parsed_0,
        r is Err ==> r->Err_0 is Config,
        read matches FileRead::Unreadable(e) ==> text::has_suffix(r->Err_0->Config_0@, e@),
        read matches FileRead::Malformed(e) ==> text::has_suffix(r->Err_0->Config_0@, e@),
{
    if let FileRead::Unreadable(e) = read {
        let m = r->Err_0->Config_0@;
        assert(m.skip(m.len() - e@.len()) =~= e@);
    }
    if let FileRead::Malformed(e) = read {
        let m = r->Err_0->Config_0@;
        assert(m.skip(m.len() - e@.len()) =~= e@);
    }
}

/// Completed events are remembered for so many days, in seconds.
pub proof fn lemma_time_to_live(c: DaemonConfig, secs: u64)
    requires
        c.dedup_ttl_days * 86400 <= u64::MAX,
        call_ensures(DaemonConfig::dedup_ttl, (&c,), secs),
    ensures
        secs == c.dedup_ttl_days * 24 * 60 * 60,
{
}

/// A name of the daemon below a base is in a directory `agentd` of it.
pub proof fn lemma_daemon_path(base: Seq<char>, name: Seq<char>)
    requires
        base.len() > 0,
        base.last() != '/',
    ensures
        config::daemon_path(Some(base), name) == base + "/agentd/"@ + name,
        config::daemon_path(None, name) == "agentd/"@ + name,
{
    reveal_strlit("/agentd/");
    reveal_strlit("agentd/");
    reveal_strlit("agentd");
    reveal_strlit("/");
    assert(config::daemon_path(Some(base), name) =~= base + "/agentd/"@ + name);
    assert(config::daemon_path(None, name) =~= "agentd/"@ + name);
}

/// A base that ends in a slash gets no second one.
pub proof fn lemma_daemon_path_slash(base: Seq<char>, name: Seq<char>)
    requires
        base.len() > 0,
        base.last() == '/',
    ensures
        config::daemon_path(Some(base), name) == base + "agentd/"@ + name,
{
    reveal_strlit("agentd/");
    reveal_strlit("agentd");
    reveal_strlit("/");
    assert(config::daemon_path(Some(base), name) =~= base + "agentd/"@ + name);
}

/// Where the registrations are: where they are configured, whatever the user's
/// directory; else in a directory of their own below it.
pub proof fn lemma_agents_dir(c: DaemonConfig, base: Option<String>, r: String)
    requires
        call_ensures(DaemonConfig::agents_dir_in, (&c, base), r),
    ensures
        c.agents_dir is Some ==> r@ == c.agents_dir->0@,
        c.agents_dir is None && (base matches Some(b) && b@.len() > 0 && b@.last() != '/') ==> r@
            == base->0@ + "/agentd/"@ + "agents.d"@,
        c.agents_dir is None && base is None ==> r@ == "agentd/"@ + "agents.d"@,
{
    if c.agents_dir is None {
        if let Some(b) = base {
            if b@.len() > 0 && b@.last() != '/' {
                lemma_daemon_path(b@, "agents.d"@);
            }
        } else {
            lemma_daemon_path(seq!['x'], "agents.d"@);
        }
    }
}

/// Where the store is, in the same way.
pub proof fn lemma_dedup_path(c: DaemonConfig, base: Option<String>, r: String)
    requires
        call_ensures(DaemonConfig::dedup_path_in, (&c, base), r),
    ensures
        c.dedup_path is Some ==> r@ == c.dedup_path->0@,
        c.dedup_path is None && (base matches Some(b) && b@.len() > 0 && b@.last() != '/') ==> r@
            == base->0@ + "/agentd/"@ + "dedup.db"@,
        c.dedup_path is None && base is None ==> r@ == "agentd/"@ + "dedup.db"@,
{
    if c.dedup_path is None {
        if let Some(b) = base {
            if b@.len() > 0 && b@.last() != '/' {
                lemma_daemon_path(b@, "dedup.db"@);
            }
        } else {
            lemma_daemon_path(seq!['x'], "dedup.db"@);
        }
    }
}

/// Where the configuration is looked for, in the same way.
pub proof fn lemma_config_path(base: Option<String>, r: String)
    requires
        call_ensures(config::default_config_path_in, (base,), r),
    ensures
        (base matches Some(b) && b@.len() > 0 && b@.last() != '/') ==> r@ == base->0@ + "/agentd/"@
            + "agentd.toml"@,
{
    if let Some(b) = base {
        if b@.len() > 0 && b@.last() != '/' {
            lemma_daemon_path(b@, "agentd.toml"@);
        }
    }
}

/// The control socket is where it is configured; else below the session's
/// directory; and only where there is neither below the user's data, and then,
/// and only then, with a warning that names it.
pub proof fn lemma_socket(
    c: DaemonConfig,
    runtime: Option<String>,
    data: Option<String>,
    r: SocketChoice,
)
    requires
        call_ensures(DaemonConfig::socket_in, (&c, runtime, data), r),
    ensures
        c.control_socket is Some ==> r.path@ == c.control_socket->0@,
        c.control_socket is None && (runtime matches Some(b) && b@.len() > 0 && b@.last() != '/')
            ==> r.path@ == runtime->0@ + "/agentd/"@ + "control.sock"@,
        c.control_socket is None && runtime is None && (data matches Some(b) && b@.len() > 0
            && b@.last() != '/') ==> r.path@ == data->0@ + "/agentd/"@ + "control.sock"@,
        r.warning is Some <==> c.control_socket is None && runtime is None,
        r.warning is Some ==> text::has_suffix(r.warning->0@, r.path@),
{
    if let Some(b) = runtime {
        if b@.len() > 0 && b@.last() != '/' {
            lemma_daemon_path(b@, "control.sock"@);
        }
    }
    if let Some(b) = data {
        if b@.len() > 0 && b@.last() != '/' {
            lemma_daemon_path(b@, "control.sock"@);
        }
    }
    if r.warning is Some {
        let w = r.warning->0@;
        assert(w.skip(w.len() - r.path@.len()) =~= r.path@);
    }
}

/// A directory of the user is taken as it was found, and none whose path is not
/// text.
pub proof fn lemma_user_dir(
    found: Option<Result<String, String>>,
    r: Result<Option<String>, AgentdError>,
)
    requires
        call_ensures(config::user_dir, (found,), r),
    ensures
        r is Err <==> found is Some && found->0 is Err,
        r is Ok ==> r->Ok_0 is Some == found is Some,
        r is Ok && found is Some ==> r->Ok_0->0@ == found->0->Ok_0@,
{
}

/// Credentials are warned of exactly where anybody but their owner may read,
/// write or execute them.
pub proof fn lemma_credentials(path: &str, mode: u32, open: bool, r: Option<String>)
    requires
        call_ensures(config::too_open, (mode,), open),
        call_ensures(config::creds_warning, (path, mode), r),
    ensures
        open <==> mode & 1 == 1 || mode & 2 == 2 || mode & 4 == 4 || mode & 8 == 8 || mode & 16
            == 16 || mode & 32 == 32,
        r is Some <==> open,
{
    assert((mode & 0o077 != 0) <==> (mode & 1 == 1 || mode & 2 == 2 || mode & 4 == 4 || mode & 8
        == 8 || mode & 16 == 16 || mode & 32 == 32)) by (bit_vector);
}

/// What a daemon without a configuration does.
pub proof fn lemma_defaults(c: DaemonConfig)
    requires
        call_ensures(DaemonConfig::default, (), c),
    ensures
        c.max_event_bytes == 256 * 1024,
        c.dedup_ttl_days == 14,
        c.ack_wait_secs == 5 * 60,
        c.ack_progress_interval_secs == 90,
        c.slow_handler_warn_secs == 60 * 60,
        c.stream_name@ == "AGENT_EVENTS"@,
        c.dedup_ttl_days * 86400 > crate::relay::STREAM_MAX_AGE_SECS,
{
}

/// The configuration is looked for below the directory of the user's
/// configuration, and nowhere else: it cannot be found exactly where the path of
/// that is not text.
pub proof fn lemma_config_path_of_user(r: Result<String, AgentdError>)
    requires
        call_ensures(config::default_config_path, (), r),
    ensures
        exists|found: Option<Result<String, String>>| #[trigger]
            config::is_config_dir(found) && (r is Err <==> found is Some && found->0 is Err) && (
            (found matches Some(Ok(b)) && b@.len() > 0 && b@.last() != '/') ==> r is Ok
                && r->Ok_0@ == found->0->Ok_0@ + "/agentd/"@ + "agentd.toml"@),
{
    let found = choose|found: Option<Result<String, String>>| #[trigger]
        config::is_config_dir(found) && config::is_below(found, "agentd.toml"@, r);
    if let Some(Ok(b)) = found {
        if b@.len() > 0 && b@.last() != '/' {
            lemma_daemon_path(b@, "agentd.toml"@);
        }
    }
}

/// The registrations are below the directory of the user's configuration,
/// unless they are configured.
pub proof fn lemma_agents_dir_of_user(c: DaemonConfig, r: Result<String, AgentdError>)
    requires
        call_ensures(DaemonConfig::resolved_agents_dir, (&c,), r),
    ensures
        c.agents_dir is Some ==> r is Ok && r->Ok_0@ == c.agents_dir->0@,
        c.agents_dir is None ==> exists|found: Option<Result<String, String>>| #[trigger]
            config::is_config_dir(found) && (r is Err <==> found is Some && found->0 is Err) && (
            (found matches Some(Ok(b)) && b@.len() > 0 && b@.last() != '/') ==> r is Ok
                && r->Ok_0@ == found->0->Ok_0@ + "/agentd/"@ + "agents.d"@),
{
    if c.agents_dir is None {
        let found = choose|found: Option<Result<String, String>>| #[trigger]
            config::is_config_dir(found) && config::is_below(found, "agents.d"@, r);
        if let Some(Ok(b)) = found {
            if b@.len() > 0 && b@.last() != '/' {
                lemma_daemon_path(b@, "agents.d"@);
            }
        }
    }
}

/// The store is below the directory of the user's data, unless it is
/// configured.
pub proof fn lemma_dedup_path_of_user(c: DaemonConfig, r: Result<String, AgentdError>)
    requires
        call_ensures(DaemonConfig::resolved_dedup_path, (&c,), r),
    ensures
        c.dedup_path is Some ==> r is Ok && r->Ok_0@ == c.dedup_path->0@,
        c.dedup_path is None ==> exists|found: Option<Result<String, String>>| #[trigger]
            config::is_data_dir(found) && (r is Err <==> found is Some && found->0 is Err) && (
            (found matches Some(Ok(b)) && b@.len() > 0 && b@.last() != '/') ==> r is Ok
                && r->Ok_0@ == found->0->Ok_0@ + "/agentd/"@ + "dedup.db"@),
{
    if c.dedup_path is None {
        let found = choose|found: Option<Result<String, String>>| #[trigger]
            config::is_data_dir(found) && config::is_below(found, "dedup.db"@, r);
        if let Some(Ok(b)) = found {
            if b@.len() > 0 && b@.last() != '/' {
                lemma_daemon_path(b@, "dedup.db"@);
            }
        }
    }
}

/// The control socket is where it is configured. Else the session's directory
/// is asked for first: where there is one, the socket is below it, with no
/// warning; where there is none, it is warned of.
pub proof fn lemma_socket_of_user(c: DaemonConfig, r: Result<SocketChoice, AgentdError>)
    requires
        call_ensures(DaemonConfig::resolved_socket, (&c,), r),
    ensures
        c.control_socket is Some ==> r is Ok && r->Ok_0.path@ == c.control_socket->0@
            && r->Ok_0.warning is None,
        c.control_socket is None ==> exists|found: Option<Result<String, String>>| #[trigger]
            config::is_runtime_dir(found) && {
                &&& found is Some && found->0 is Err ==> r is Err
                &&& found is Some && found->0 is Ok ==> r is Ok && r->Ok_0.warning is None
                &&& found is None && r is Ok ==> r->Ok_0.warning is Some
                &&& (found matches Some(Ok(b)) && b@.len() > 0 && b@.last() != '/')
                    ==> r->Ok_0.path@ == found->0->Ok_0@ + "/agentd/"@ + "control.sock"@
            },
{
    if c.control_socket is None {
        let found = choose|found: Option<Result<String, String>>| #[trigger]
            config::is_runtime_dir(found) && config::is_in_session(found, r);
        if let Some(Ok(b)) = found {
            if b@.len() > 0 && b@.last() != '/' {
                lemma_daemon_path(b@, "control.sock"@);
            }
        }
    }
}

} // verus!
