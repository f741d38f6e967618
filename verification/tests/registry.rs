use agent_daemon::agent_id::AgentId;
use agent_daemon::error::AgentdError;
use agent_daemon::files::FileRead;
use agent_daemon::paths::{is_same_opt_path, is_same_path};
use agent_daemon::persist::{Persist, Step};
use agent_daemon::registry::{
    is_executable, wants, AgentConfig, AgentFile, Change, Entry, Listing, Registry,
};

fn id(s: &str) -> AgentId {
    AgentId::parse(s).unwrap()
}

fn cfg(s: &str, handler: &str, concurrency: u32) -> AgentConfig {
    AgentConfig {
        agent_id: id(s),
        handler: handler.to_string(),
        max_concurrency: concurrency,
        working_directory: None,
        enabled: true,
    }
}

fn file(name: &str, config: AgentConfig) -> Entry {
    Entry::File(AgentFile {
        name: name.to_string(),
        read: FileRead::Parsed(config),
        handler_exists: true,
        handler_executable: true,
    })
}

fn load(entries: Vec<Entry>) -> Result<Registry, AgentdError> {
    Registry::load("/agents.d", Listing::Entries(entries)).outcome
}

/// What a directory holds after every agent of a registry was written to it.
fn written(r: &Registry) -> Vec<Entry> {
    r.snapshot()
        .into_iter()
        .map(|c| file(&format!("{}.toml", c.agent_id.as_str()), c))
        .collect()
}

#[test]
fn structural_validation_rejects_bad_configs() {
    assert!(cfg("a.b", "/abs/handler", 1).validate().is_ok());
    let relative_handler = cfg("a.b", "relative", 1);
    assert!(relative_handler.validate().is_err());
    let zero = AgentConfig {
        max_concurrency: 0,
        ..cfg("a.b", "/abs", 1)
    };
    assert!(zero.validate().is_err());
    let bad_cwd = AgentConfig {
        working_directory: Some("relative".to_string()),
        ..cfg("a.b", "/abs", 1)
    };
    assert!(bad_cwd.validate().is_err());
}

#[test]
fn structural_faults_are_told_in_words() {
    let message = |c: AgentConfig| c.validate().unwrap_err().to_string();
    assert_eq!(
        message(cfg("a.b", "relative", 1)),
        "configuration error: agent a.b: handler path must be absolute, got \"relative\""
    );
    // Paths are quoted as paths are.
    assert_eq!(
        message(cfg("a.b", "it's", 1)),
        format!(
            "configuration error: agent a.b: handler path must be absolute, got {:?}",
            std::path::Path::new("it's")
        )
    );
    assert_eq!(
        message(cfg("a.b", "/abs", 0)),
        "configuration error: agent a.b: max_concurrency must be >= 1"
    );
    let bad_cwd = AgentConfig {
        working_directory: Some("relative".to_string()),
        ..cfg("a.b", "/abs", 1)
    };
    assert_eq!(
        message(bad_cwd),
        "configuration error: agent a.b: working_directory must be absolute: \"relative\""
    );
}

#[test]
fn liveness_is_only_warned_of() {
    let c = cfg("a.b", "/no/such", 1);
    assert_eq!(
        c.liveness_warnings(false, false),
        vec!["handler \"/no/such\" does not exist".to_string()]
    );
    assert_eq!(
        c.liveness_warnings(true, false),
        vec!["handler \"/no/such\" is not executable".to_string()]
    );
    assert!(c.liveness_warnings(true, true).is_empty());
    assert!(is_executable(Some(0o755)));
    assert!(is_executable(Some(0o001)));
    assert!(!is_executable(Some(0o644)));
    assert!(!is_executable(None));
}

#[test]
fn register_persists_and_reload_roundtrips() {
    let mut r = load(vec![]).unwrap();
    let config = cfg("coding.main", "/bin/true", 1);
    r.check_register(&config).unwrap();
    assert_eq!(
        Persist::new(&r, &config.agent_id, 7).target,
        "/agents.d/coding.main.toml"
    );
    r.register(&config, Ok(())).unwrap();
    // A fresh load sees the same config.
    let r2 = load(written(&r)).unwrap();
    assert_eq!(r2.snapshot().len(), 1);
    assert_eq!(r2.snapshot()[0].agent_id.as_str(), "coding.main");
}

#[test]
fn registry_duplicate_register_is_an_error() {
    let mut r = load(vec![]).unwrap();
    r.register(&cfg("a.b", "/bin/true", 1), Ok(())).unwrap();
    assert!(r.register(&cfg("a.b", "/bin/false", 2), Ok(())).is_err());
    assert_eq!(r.snapshot()[0].handler, "/bin/true");
}

#[test]
fn duplicate_content_id_across_files_errors() {
    let loaded = load(vec![
        file("x.toml", cfg("dup.id", "/bin/true", 1)),
        file("y.toml", cfg("dup.id", "/bin/false", 1)),
    ]);
    assert!(loaded.is_err());
    let loaded = load(vec![
        file("dup.id.toml", cfg("dup.id", "/bin/true", 1)),
        file("dup.id.toml", cfg("dup.id", "/bin/false", 1)),
    ]);
    assert_eq!(
        loaded.unwrap_err().to_string(),
        "configuration error: duplicate agent_id dup.id in /agents.d/dup.id.toml"
    );
}

#[test]
fn filename_must_match_agent_id() {
    let loaded = load(vec![file("wrong.toml", cfg("a.b", "/bin/true", 1))]);
    assert_eq!(
        loaded.unwrap_err().to_string(),
        "configuration error: file /agents.d/wrong.toml declares agent_id a.b but is named \
         wrong.toml; filenames must match the agent_id"
    );
}

#[test]
fn reload_diffs_transitions() {
    let mut r = load(vec![
        file("a.toml", cfg("a", "/bin/a", 1)),
        file("b.toml", cfg("b", "/bin/b", 1)),
    ])
    .unwrap();
    assert_eq!(r.snapshot().len(), 2);

    let b_disabled = AgentConfig {
        enabled: false,
        ..cfg("b", "/bin/b2", 1)
    };
    let fresh = load(vec![
        file("c.toml", cfg("c", "/bin/c", 1)),
        file("b.toml", b_disabled),
    ]);
    let changes = r.reload(fresh).unwrap();
    let kinds: Vec<&str> = changes
        .iter()
        .map(|c| match c {
            Change::Added(_) => "added",
            Change::Updated(_) => "updated",
            Change::Enabled(_) => "enabled",
            Change::Disabled(_) => "disabled",
            Change::Removed(_) => "removed",
        })
        .collect();
    assert_eq!(kinds.join(","), "removed,disabled,added", "{changes:?}");
    assert_eq!(r.snapshot().len(), 2);
}

#[test]
fn update_and_unregister_flow() {
    let mut r = load(vec![]).unwrap();
    r.register(&cfg("a.b", "/bin/a", 1), Ok(())).unwrap();
    r.update(&cfg("a.b", "/bin/a2", 2), Ok(())).unwrap();
    assert_eq!(r.snapshot()[0].handler, "/bin/a2");
    r.set_enabled(&id("a.b"), false, Ok(())).unwrap();
    assert!(!r.snapshot()[0].enabled);
    r.unregister(&id("a.b"), Ok(())).unwrap();
    assert!(r.snapshot().is_empty());
}

#[test]
fn reload_tells_updates_and_enablings_apart() {
    let mut r = load(vec![
        file("a.toml", cfg("a", "/bin/a", 1)),
        file(
            "b.toml",
            AgentConfig {
                enabled: false,
                ..cfg("b", "/bin/b", 1)
            },
        ),
        file("c.toml", cfg("c", "/bin/c", 1)),
    ])
    .unwrap();
    let fresh = load(vec![
        file("c.toml", cfg("c", "/bin/c", 1)),
        file("b.toml", cfg("b", "/bin/b9", 9)),
        file("a.toml", cfg("a", "/bin/a", 2)),
    ]);
    let changes = r.reload(fresh).unwrap();
    assert_eq!(changes.len(), 2, "{changes:?}");
    assert!(matches!(&changes[0], Change::Updated(c) if c.max_concurrency == 2));
    assert!(matches!(&changes[1], Change::Enabled(c) if c.handler == "/bin/b9"));
    // Nothing changes between a state and itself.
    let again = load(written(&r));
    assert!(r.reload(again).unwrap().is_empty());
}

#[test]
fn a_failed_reload_keeps_the_registry() {
    let mut r = load(vec![file("a.toml", cfg("a", "/bin/a", 1))]).unwrap();
    let fresh = load(vec![file("a.toml", cfg("a", "relative", 1))]);
    assert!(r.reload(fresh).is_err());
    assert_eq!(r.snapshot().len(), 1);
    assert_eq!(r.snapshot()[0].handler, "/bin/a");
}

#[test]
fn a_failed_write_changes_nothing() {
    let mut r = load(vec![file("a.toml", cfg("a", "/bin/a", 1))]).unwrap();
    let failed = || Err(AgentdError::Config("disk full".to_string()));
    assert!(r.register(&cfg("b", "/bin/b", 1), failed()).is_err());
    assert!(r.update(&cfg("a", "/bin/x", 1), failed()).is_err());
    assert!(r.set_enabled(&id("a"), false, failed()).is_err());
    let e = r.unregister(&id("a"), Err("busy".to_string())).unwrap_err();
    assert_eq!(
        e.to_string(),
        "configuration error: cannot remove /agents.d/a.toml: busy"
    );
    assert_eq!(r.snapshot().len(), 1);
    assert_eq!(r.snapshot()[0].handler, "/bin/a");
    assert!(r.snapshot()[0].enabled);
}

#[test]
fn unknown_agents_are_refused() {
    let mut r = load(vec![]).unwrap();
    let message = "configuration error: agent a is not registered";
    assert_eq!(
        r.update(&cfg("a", "/bin/a", 1), Ok(())).unwrap_err().to_string(),
        message
    );
    assert_eq!(
        r.set_enabled(&id("a"), true, Ok(())).unwrap_err().to_string(),
        message
    );
    assert_eq!(r.unregister(&id("a"), Ok(())).unwrap_err().to_string(), message);
    assert!(r.get(&id("a")).is_none());
    assert!(r.check_set_enabled(&id("a"), true).is_err());
    assert!(r.check_unregister(&id("a")).is_err());
}

#[test]
fn switching_to_the_same_state_writes_nothing() {
    let mut r = load(vec![file("a.toml", cfg("a", "/bin/a", 1))]).unwrap();
    assert!(r.check_set_enabled(&id("a"), true).unwrap().is_none());
    assert!(!r.check_set_enabled(&id("a"), false).unwrap().unwrap().enabled);
    // Nothing is to be written, so no write can fail.
    assert!(r
        .set_enabled(&id("a"), true, Err(AgentdError::Config("x".to_string())))
        .is_ok());
}

#[test]
fn snapshots_are_in_the_order_of_ids() {
    let mut r = load(vec![]).unwrap();
    for s in ["m", "b.x", "z", "a", "b"] {
        r.register(&cfg(s, "/bin/true", 1), Ok(())).unwrap();
    }
    let ids: Vec<String> = r.snapshot().iter().map(|c| c.agent_id.to_string()).collect();
    assert_eq!(ids, vec!["a", "b", "b.x", "m", "z"]);
    assert_eq!(r.get(&id("b.x")).unwrap().agent_id.as_str(), "b.x");
}

#[test]
fn loading_passes_over_other_files_and_reports_faults() {
    assert!(wants("a.toml"));
    assert!(!wants(".toml"));
    assert!(!wants("a.toml.bak"));
    assert!(!wants(".a.7.tmp"));
    let other = || {
        Entry::File(AgentFile {
            name: "notes.txt".to_string(),
            read: FileRead::Unreadable("not looked at".to_string()),
            handler_exists: false,
            handler_executable: false,
        })
    };
    let r = load(vec![other(), file("a.toml", cfg("a", "/bin/a", 1))]).unwrap();
    assert_eq!(r.snapshot().len(), 1);

    let unreadable = Entry::File(AgentFile {
        name: "a.toml".to_string(),
        read: FileRead::Unreadable("denied".to_string()),
        handler_exists: false,
        handler_executable: false,
    });
    assert_eq!(
        load(vec![unreadable]).unwrap_err().to_string(),
        "configuration error: cannot read /agents.d/a.toml: denied"
    );
    let malformed = Entry::File(AgentFile {
        name: "a.toml".to_string(),
        read: FileRead::Malformed("typo".to_string()),
        handler_exists: false,
        handler_executable: false,
    });
    assert_eq!(
        load(vec![malformed]).unwrap_err().to_string(),
        "configuration error: invalid agent config /agents.d/a.toml: typo"
    );
    assert_eq!(
        load(vec![Entry::Failed("io".to_string())]).unwrap_err().to_string(),
        "configuration error: read_dir error: io"
    );
    assert!(load(vec![file("a.toml", cfg("a", "/bin/a", 0))]).is_err());
    let missing = Registry::load("/agents.d", Listing::Missing);
    assert!(missing.outcome.unwrap().snapshot().is_empty());
    let denied = Registry::load("/agents.d", Listing::Unreadable("denied".to_string()));
    assert_eq!(
        denied.outcome.unwrap_err().to_string(),
        "configuration error: cannot read /agents.d: denied"
    );
}

#[test]
fn loading_warns_of_dead_handlers_and_goes_on() {
    let entries = vec![
        Entry::File(AgentFile {
            name: "a.toml".to_string(),
            read: FileRead::Parsed(cfg("a", "/gone", 1)),
            handler_exists: false,
            handler_executable: false,
        }),
        file("b.toml", cfg("b", "/bin/b", 1)),
    ];
    let loaded = Registry::load("/agents.d", Listing::Entries(entries));
    assert_eq!(loaded.log.len(), 1);
    assert_eq!(loaded.log[0].message, "handler \"/gone\" does not exist");
    assert_eq!(loaded.outcome.unwrap().snapshot().len(), 2);
}

#[test]
fn writes_go_through_a_temporary_file() {
    let r = load(vec![]).unwrap();
    let p = Persist::new(&r, &id("a.b"), 42);
    assert_eq!(p.dir, "/agents.d");
    assert_eq!(p.temp, "/agents.d/.a.b.42.tmp");
    assert_eq!(p.target, "/agents.d/a.b.toml");
    assert_eq!(p.target, r.file_path(&id("a.b")));
    let mut steps = vec![p.first(false)];
    while *steps.last().unwrap() != Step::Done {
        let next = p.after(*steps.last().unwrap(), Ok(())).unwrap();
        steps.push(next);
    }
    assert_eq!(
        steps,
        vec![
            Step::CreateDir,
            Step::Serialize,
            Step::WriteTemp,
            Step::OpenTemp,
            Step::SyncTemp,
            Step::Rename,
            Step::SyncDir,
            Step::Done
        ]
    );
    assert_eq!(p.first(true), Step::Serialize);
}

#[test]
fn failed_writes_say_where() {
    let r = load(vec![]).unwrap();
    let p = Persist::new(&r, &id("a"), 1);
    let cases = [
        (Step::CreateDir, "cannot create /agents.d: no"),
        (Step::Serialize, "cannot serialize a: no"),
        (Step::WriteTemp, "cannot write /agents.d/.a.1.tmp: no"),
        (Step::OpenTemp, "cannot open /agents.d/.a.1.tmp for fsync: no"),
        (Step::SyncTemp, "fsync failed for /agents.d/.a.1.tmp: no"),
        (
            Step::Rename,
            "cannot rename /agents.d/.a.1.tmp -> /agents.d/a.toml: no",
        ),
    ];
    for (step, message) in cases {
        let e = p.after(step, Err("no".to_string())).unwrap_err();
        assert_eq!(e.to_string(), format!("configuration error: {message}"));
    }
    assert_eq!(
        p.after(Step::SyncDir, Err("no".to_string())).unwrap(),
        Step::Done
    );
}

#[test]
fn paths_are_compared_by_their_components() {
    for (a, b) in [
        ("/bin//a", "/bin/a"),
        ("/bin/./a/", "/bin/a"),
        ("/bin/a/.", "//bin/a"),
        ("/", "//."),
        ("a/./b", "a/b"),
        ("./a", "./a/"),
        ("", ""),
        (".", "./"),
        ("/a/../b", "/a//../b"),
        ("/a/.b", "/a/.b/"),
    ] {
        assert!(is_same_path(a, b), "{a} {b}");
        assert!(std::path::Path::new(a) == std::path::Path::new(b));
    }
    for (a, b) in [
        ("/bin/a", "bin/a"),
        ("./a", "a"),
        (".", ""),
        ("/a/../b", "/b"),
        ("/a", "/a/b"),
        ("/A", "/a"),
        ("/a/.b", "/a/b"),
        ("/..", "/"),
        ("..", "."),
        ("/a/...", "/a"),
    ] {
        assert!(!is_same_path(a, b), "{a} {b}");
        assert!(std::path::Path::new(a) != std::path::Path::new(b));
    }
    let some = |s: &str| Some(s.to_string());
    assert!(is_same_opt_path(&some("/w//x"), &some("/w/x")));
    assert!(is_same_opt_path(&None, &None));
    assert!(!is_same_opt_path(&some("/w"), &None));
}

#[test]
fn a_path_written_otherwise_is_no_update() {
    let mut r = load(vec![file("a.toml", cfg("a", "/bin/a", 1))]).unwrap();
    let fresh = load(vec![file("a.toml", cfg("a", "/bin//a", 1))]);
    assert!(r.reload(fresh).unwrap().is_empty());
    assert_eq!(r.get(&id("a")).unwrap().handler, "/bin//a");
}

#[test]
fn a_reload_after_any_operations_finds_nothing() {
    let failed = || Err(AgentdError::config("disk full".to_string()));
    let mut r = load(vec![file("a.toml", cfg("a", "/bin/a", 1))]).unwrap();
    r.register(&cfg("b", "/bin/b", 2), Ok(())).unwrap();
    r.register(&cfg("c", "/bin/c", 3), failed()).unwrap_err();
    r.update(&cfg("a", "/bin/a2", 1), Ok(())).unwrap();
    r.update(&cfg("b", "/bin/b2", 1), failed()).unwrap_err();
    r.set_enabled(&id("a"), false, Ok(())).unwrap();
    r.unregister(&id("a"), Err("busy".to_string())).unwrap_err();
    r.register(&cfg("d", "/bin/d", 1), Ok(())).unwrap();
    r.unregister(&id("d"), Ok(())).unwrap();
    // The directory as the writes that succeeded left it.
    let directory = || {
        let a = AgentConfig {
            enabled: false,
            ..cfg("a", "/bin/a2", 1)
        };
        vec![file("b.toml", cfg("b", "/bin/b", 2)), file("a.toml", a)]
    };
    for _ in 0..2 {
        assert!(r.reload(load(directory())).unwrap().is_empty());
        let ids: Vec<String> = r.snapshot().iter().map(|c| c.agent_id.to_string()).collect();
        assert_eq!(ids, ["a", "b"]);
    }
}
