//! Assistant sessions: records, and the hooks that write them.
use cutter::cli::SessionEvent;
use cutter::commands::session::{react, run, SessionUpdate};
use cutter::config::Environment;
use cutter::git::Output;
use cutter::json::{parse_json, Json};
use cutter::session::{
    aggregate, ensure_hooks, has_cutter_hook, is_record_file, load_active, normalize, pid_alive,
    record, record_path, resolve_cutter_cli, resolve_workspace, sessions_dir, set_up_hooks,
    status_by_workspace, Found, Probe, SessionRecord, SessionState, WorkspaceStatus,
};
use cutter::time::Timestamp;
use cutter::workspace::{WorkspaceConfig, WorkspaceInfo};

const HOOKS: [&str; 5] = ["SessionStart", "UserPromptSubmit", "Stop", "Notification", "SessionEnd"];

fn at(secs: i64) -> Timestamp {
    Timestamp { secs, nanos: 0 }
}

fn env() -> Environment {
    Environment { config_dir: Some("/cfg".into()), workspace_root: None, home: Some("/home/k".into()) }
}

fn ws(name: &str, path: &str) -> WorkspaceConfig {
    WorkspaceConfig {
        workspace: WorkspaceInfo {
            name: name.to_string(),
            base: "b".to_string(),
            branch: name.to_string(),
            path: path.to_string(),
            created_at: at(0),
        },
        repos: Vec::new(),
        linked_windows: Vec::new(),
    }
}

fn rec(id: &str, workspace: &str, state: SessionState, secs: i64, pid: Option<i32>) -> SessionRecord {
    SessionRecord {
        session_id: id.into(),
        workspace: workspace.into(),
        cwd: "/w".into(),
        state,
        updated_at: at(secs),
        pid,
    }
}

#[test]
fn resolves_longest_prefix() {
    let workspaces = vec![ws("feat", "/tmp/root/feat"), ws("feature-two", "/tmp/root/feature-two")];
    // Exact match.
    assert_eq!(resolve_workspace("/tmp/root/feat", &workspaces).as_deref(), Some("feat"));
    // Session launched in a repo subdir maps to its workspace.
    assert_eq!(
        resolve_workspace("/tmp/root/feat/frontend/src", &workspaces).as_deref(),
        Some("feat")
    );
    // Component-wise prefix: "feat" must not swallow "feature-two".
    assert_eq!(
        resolve_workspace("/tmp/root/feature-two/api", &workspaces).as_deref(),
        Some("feature-two")
    );
    // Outside any workspace.
    assert_eq!(resolve_workspace("/tmp/elsewhere", &workspaces), None);
}

#[test]
fn the_innermost_workspace_owns_a_directory() {
    let workspaces = vec![ws("outer", "/r"), ws("inner", "/r/in"), ws("again", "/r/in")];
    assert_eq!(resolve_workspace("/r/in/x", &workspaces).as_deref(), Some("inner"));
    assert_eq!(resolve_workspace("/r/x", &workspaces).as_deref(), Some("outer"));
}

#[test]
fn aggregate_precedence() {
    let recs = vec![
        rec("a", "w", SessionState::Waiting, 0, None),
        rec("b", "w", SessionState::Running, 0, None),
    ];
    let map = aggregate(&recs);
    let status = map.get("w").copied().unwrap();
    assert_eq!(status.running, 1);
    assert_eq!(status.waiting, 1);
    // Running wins.
    assert_eq!(status.state(), Some(SessionState::Running));
    assert!(map.get("v").is_none());
}

#[test]
fn states_have_labels() {
    assert_eq!(SessionState::Running.label(), "running");
    assert_eq!(SessionState::Waiting.label(), "waiting for input");
    assert_eq!(WorkspaceStatus { running: 0, waiting: 2 }.state(), Some(SessionState::Waiting));
    assert_eq!(WorkspaceStatus::default().state(), None);
}

#[test]
fn record_and_remove_roundtrip() {
    let workspaces = vec![ws("feat", "/tmp/wsroot/feat")];
    let dir = "/tmp/wsroot/feat";
    let r = record("sess-1", dir, dir, &workspaces, SessionState::Running, Some(1), at(100)).unwrap();
    let path = record_path(&env(), "sess-1").unwrap();
    assert_eq!(path, "/cfg/sessions/sess-1.json");
    assert!(is_record_file(&path));

    let found = vec![Found { path: path.clone(), record: Some(r), alive: true }];
    let (loaded, gone) = load_active(found, &workspaces, at(101));
    assert_eq!(loaded.len(), 1);
    assert_eq!(loaded[0].workspace, "feat");
    assert_eq!(loaded[0].state, SessionState::Running);
    assert!(gone.is_empty());

    // Without its file, the session is gone.
    let (loaded, gone) = load_active(vec![], &workspaces, at(101));
    assert!(loaded.is_empty());
    assert!(gone.is_empty());
}

#[test]
fn record_ignores_dir_outside_workspaces() {
    let workspaces = vec![ws("feat", "/tmp/wsroot/feat")];
    let dir = "/definitely/not/a/workspace";
    assert!(record("sess-x", dir, dir, &workspaces, SessionState::Running, None, at(0)).is_none());
}

#[test]
fn dead_stale_and_broken_records_are_deleted() {
    let workspaces = vec![ws("w", "/w")];
    let now = at(1_000_000);
    let day = 24 * 60 * 60;
    let found = vec![
        Found {
            path: "ok".into(),
            record: Some(rec("1", "w", SessionState::Running, 1_000_000 - day, Some(9))),
            alive: true,
        },
        Found {
            path: "dead".into(),
            record: Some(rec("2", "w", SessionState::Running, 1_000_000, Some(9))),
            alive: false,
        },
        Found {
            path: "stale".into(),
            record: Some(rec("3", "w", SessionState::Running, 1_000_000 - day - 1, None)),
            alive: false,
        },
        Found { path: "broken".into(), record: None, alive: false },
        Found {
            path: "elsewhere".into(),
            record: Some(rec("5", "other", SessionState::Waiting, 1_000_000, None)),
            alive: false,
        },
        Found {
            path: "nopid".into(),
            record: Some(rec("6", "w", SessionState::Waiting, 1_000_000, None)),
            alive: false,
        },
    ];
    let (loaded, gone) = load_active(found, &workspaces, now);
    let ids: Vec<&str> = loaded.iter().map(|r| r.session_id.as_str()).collect();
    assert_eq!(ids, vec!["1", "6"]);
    assert_eq!(gone, vec!["dead", "stale", "broken"]);
}

#[test]
fn statuses_are_counted_by_workspace() {
    let workspaces = vec![ws("w", "/w"), ws("v", "/v")];
    let found = vec![
        Found { path: "1".into(), record: Some(rec("1", "w", SessionState::Waiting, 5, None)), alive: false },
        Found { path: "2".into(), record: Some(rec("2", "v", SessionState::Running, 5, None)), alive: false },
        Found { path: "3".into(), record: Some(rec("3", "w", SessionState::Waiting, 5, None)), alive: false },
    ];
    let (map, gone) = status_by_workspace(found, &workspaces, at(6));
    assert_eq!(map.get("w").copied(), Some(WorkspaceStatus { running: 0, waiting: 2 }));
    assert_eq!(map.get("v").copied(), Some(WorkspaceStatus { running: 1, waiting: 0 }));
    assert!(gone.is_empty());
}

#[test]
fn processes_are_alive_unless_gone() {
    assert!(pid_alive(1, Probe::Reached));
    assert!(pid_alive(1, Probe::Denied));
    assert!(!pid_alive(1, Probe::Gone));
    assert!(!pid_alive(0, Probe::Reached));
    assert!(!pid_alive(-3, Probe::Reached));
    assert!(!pid_alive(0, Probe::Denied));
    assert!(pid_alive(1, Probe::Unknown));
    assert!(pid_alive(0, Probe::Unknown));
}

#[test]
fn record_files_stay_in_their_directory() {
    assert_eq!(sessions_dir(&env()).unwrap(), "/cfg/sessions");
    assert_eq!(
        record_path(&env(), "../../etc/passwd é").unwrap(),
        "/cfg/sessions/______etc_passwd__.json"
    );
    assert!(!is_record_file("/cfg/sessions/x.txt"));
    assert_eq!(normalize("/a", Some("/b".into())), "/b");
    assert_eq!(normalize("/a", None), "/a");
}

#[test]
fn ensure_hooks_is_idempotent_and_preserves_permissions() {
    let before = r#"{"permissions":{"allow":["WebSearch"]}}"#;
    let after1 = ensure_hooks(Some(before), "/bin/cutter").unwrap().unwrap();
    let v1: serde_json::Value = serde_json::from_str(&after1).unwrap();
    // Permissions preserved.
    assert_eq!(v1["permissions"]["allow"][0], "WebSearch");
    // All five events installed.
    let hooks = v1["hooks"].as_object().unwrap();
    for event in HOOKS {
        assert!(hooks.contains_key(event), "missing {event}");
    }
    assert!(after1.contains("session-event stop"));
    assert_eq!(
        v1["hooks"]["UserPromptSubmit"][0]["hooks"][0]["command"],
        "/bin/cutter session-event prompt-submit --ppid $PPID"
    );
    assert_eq!(v1["hooks"]["Stop"][0]["hooks"][0]["type"], "command");
    assert!(after1.ends_with("}\n"));

    // Second call changes nothing.
    assert!(ensure_hooks(Some(&after1), "/bin/cutter").unwrap().is_none());
}

#[test]
fn hooks_replace_what_is_no_object() {
    for text in ["not json", "[]", "{\"hooks\": 3}", "{\"hooks\": {\"Stop\": \"x\"}}"] {
        let after = ensure_hooks(Some(text), "cutter").unwrap().unwrap();
        let v: serde_json::Value = serde_json::from_str(&after).unwrap();
        assert_eq!(v["hooks"]["Stop"].as_array().unwrap().len(), 1);
    }
    assert!(ensure_hooks(None, "cutter").unwrap().is_some());
}

#[test]
fn other_hooks_stay() {
    let before = r#"{"hooks":{"Stop":[{"hooks":[{"type":"command","command":"beep"}]}],"PreToolUse":[1]},"n":1.5}"#;
    let after = ensure_hooks(Some(before), "cutter").unwrap().unwrap();
    let v: serde_json::Value = serde_json::from_str(&after).unwrap();
    assert_eq!(v["hooks"]["Stop"][0]["hooks"][0]["command"], "beep");
    assert_eq!(v["hooks"]["Stop"].as_array().unwrap().len(), 2);
    assert_eq!(v["hooks"]["PreToolUse"][0], 1);
    assert_eq!(v["n"], 1.5);
}

#[test]
fn one_group_is_added_where_none_reports() {
    let before = r#"{"hooks":{"Stop":[{"hooks":[{"command":"x session-event y"}]},2],"SessionEnd":[3]}}"#;
    let after = ensure_hooks(Some(before), "cutter").unwrap().unwrap();
    let v: serde_json::Value = serde_json::from_str(&after).unwrap();
    let old: serde_json::Value = serde_json::from_str(before).unwrap();
    // This event reports already and stays as it is.
    assert_eq!(v["hooks"]["Stop"], old["hooks"]["Stop"]);
    let end = v["hooks"]["SessionEnd"].as_array().unwrap();
    assert_eq!(end.len(), 2);
    assert_eq!(end[0], 3);
    assert_eq!(
        end[1]["hooks"][0]["command"],
        "cutter session-event session-end --ppid $PPID"
    );
    assert_eq!(v["hooks"]["Notification"].as_array().unwrap().len(), 1);
}

#[test]
fn hooks_stay_set_up_whatever_numbers_there_are() {
    let numbers = [
        "0", "-1", "1.5", "-0.0", "1e16", "0.1", "5e-324", "2.2250738585072014e-308",
        "1.7976931348623157e308", "1.7976931348623155e308", "-1.7976931348623157e308",
        "123456789012345678901234567890", "18446744073709551616",
    ];
    for n in numbers {
        let before = format!("{{\"n\":{n},\"hooks\":{{\"Stop\":[{n}]}}}}");
        let after = ensure_hooks(Some(&before), "cutter").unwrap().unwrap();
        assert!(ensure_hooks(Some(&after), "other").unwrap().is_none(), "{n}");
    }
}

#[test]
fn hooks_are_found_among_groups() {
    let yes = parse_json(r#"[{"x":1},{"hooks":[{"command":7},{"command":"a session-event b"}]}]"#).unwrap();
    assert!(has_cutter_hook(&yes));
    let no = parse_json(r#"[{"hooks":[{"command":"beep"}]}, "session-event"]"#).unwrap();
    assert!(!has_cutter_hook(&no));
    assert!(!has_cutter_hook(&Json::Null));
    assert!(set_up_hooks(Vec::new(), "c").is_some());
}

#[test]
fn the_program_for_hooks_is_resolved() {
    let out = |success: bool, stdout: &str| {
        Some(Output { success, stdout: stdout.into(), stderr: String::new() })
    };
    assert_eq!(resolve_cutter_cli(Some("/h/cutter".into()), out(true, "/u/cutter\n")), "/h/cutter");
    assert_eq!(resolve_cutter_cli(None, out(true, " /u/cutter\n")), "/u/cutter");
    assert_eq!(resolve_cutter_cli(None, out(true, "\n")), "cutter");
    assert_eq!(resolve_cutter_cli(None, out(false, "/u/cutter\n")), "cutter");
    assert_eq!(resolve_cutter_cli(None, None), "cutter");
}

#[test]
fn reports_become_updates() {
    let payload = r#"{"session_id":"s","cwd":"/c"}"#;
    let state = |e: SessionEvent| match run(e, Some(3), payload, Some("/launch".into())) {
        SessionUpdate::Record { session_id, project_dir, state, pid } => {
            assert_eq!(session_id, "s");
            assert_eq!(project_dir, "/launch");
            assert_eq!(pid, Some(3));
            state
        }
        other => panic!("{other:?}"),
    };
    assert_eq!(state(SessionEvent::PromptSubmit), SessionState::Running);
    assert_eq!(state(SessionEvent::Stop), SessionState::Waiting);
    assert_eq!(state(SessionEvent::Notification), SessionState::Waiting);
    assert_eq!(state(SessionEvent::SessionStart), SessionState::Waiting);
    assert!(matches!(
        run(SessionEvent::SessionEnd, None, payload, None),
        SessionUpdate::Remove { session_id } if session_id == "s"
    ));
    assert!(matches!(
        run(SessionEvent::Stop, None, payload, None),
        SessionUpdate::Record { project_dir, .. } if project_dir == "/c"
    ));
}

#[test]
fn reports_that_are_not_understood_are_ignored() {
    assert!(matches!(run(SessionEvent::Stop, None, "nope", None), SessionUpdate::Ignore));
    assert!(matches!(
        run(SessionEvent::Stop, None, r#"{"session_id":1}"#, None),
        SessionUpdate::Ignore
    ));
    let payload = parse_json(r#"{"session_id":"s"}"#).unwrap();
    assert!(matches!(react(SessionEvent::Stop, None, &payload, None), SessionUpdate::Ignore));
}
