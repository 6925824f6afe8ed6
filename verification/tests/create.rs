//! Creating a workspace, and the directory that is assembled for the assistant.
use cutter::assistant::Assistant;
use cutter::cli::ClaudeMode;
use cutter::commands::assembly::{
    add_servers, base_claude_dir, guide, mcp_document, merge_claude_dirs, merge_mcp_json,
    merge_settings_json, overlay_claude_md, overlay_file, overlay_mcp, overlay_settings,
    override_servers, part_of, place, servers_in, settings_document, workspace_guide, Assembly,
    FileAction, Part,
};
use cutter::commands::create::{
    asks_mode, base_items, check_source, mode_at, name_problem, plan, Creation, Plan, Task,
};
use cutter::config::{Base, Config, Environment, RepoRef, Settings};
use cutter::error::Error;
use cutter::json::{parse_json, print_json, read_document, write_document, Json};
use cutter::session::settings_path;
use cutter::time::Timestamp;

fn helper() -> Assistant {
    Assistant {
        title: "Helper".into(),
        product: "Helper Kit".into(),
        program: "helper".into(),
        dir: ".helper".into(),
        guide: "HELPER.md".into(),
    }
}

fn env() -> Environment {
    Environment { config_dir: Some("/cfg".into()), workspace_root: None, home: Some("/home/k".into()) }
}

fn config() -> Config {
    let repo = |name: &str, from: Option<&str>| RepoRef {
        name: name.into(),
        path: format!("/src/{name}"),
        branch_from: from.map(|s| s.into()),
    };
    Config {
        settings: Settings::default(),
        bases: vec![
            (
                "one".into(),
                Base {
                    repos: vec![repo("a", None), repo("b", Some("origin/b"))],
                    branch_from: Some("origin/dev".into()),
                    copy_files: vec![".env".into(), "x/y".into()],
                },
            ),
            (
                "two".into(),
                Base { repos: vec![repo("c", None)], branch_from: None, copy_files: vec![] },
            ),
        ],
    }
}

fn the_plan() -> Plan {
    plan(&config(), &env(), "feat", "one", false).unwrap()
}

fn said<T>(r: Result<T, Error>) -> String {
    match r {
        Ok(_) => "ok".into(),
        Err(e) => e.message(),
    }
}

#[test]
fn a_plan_says_where_everything_goes() {
    let p = the_plan();
    assert_eq!((p.name.as_str(), p.base.as_str(), p.dir.as_str()), ("feat", "one", "/home/k/cutter/feat"));
    assert_eq!(p.repos[0].source, "/src/a");
    assert_eq!(p.repos[0].target, "/home/k/cutter/feat/a");
    assert_eq!(p.repos[0].from, "origin/dev");
    assert_eq!(p.repos[1].from, "origin/b");
    let mut c = config();
    c.bases[1].1.repos[0].path = "~/repos/c".into();
    let q = plan(&c, &env(), "feat", "two", false).unwrap();
    assert_eq!(q.repos[0].from, "origin/main");
    assert_eq!(q.repos[0].source, "/home/k/repos/c");
}

#[test]
fn a_plan_needs_a_base_and_a_free_name() {
    assert_eq!(said(plan(&config(), &env(), "feat", "no", true)), "Base 'no' not found");
    assert_eq!(said(plan(&config(), &env(), "feat", "one", true)), "Workspace 'feat' already exists");
}

#[test]
fn sources_must_be_repos() {
    assert_eq!(said(check_source("/src/a", true, true)), "ok");
    assert_eq!(said(check_source("/src/a", false, true)), "Path does not exist: /src/a");
    assert_eq!(said(check_source("/src/a", true, false)), "Path is not a git repository: /src/a");
}

fn name_of(t: &Task) -> String {
    match t {
        Task::Check { path } => format!("check {path}"),
        Task::Fetch { repo, source } => format!("fetch {repo} {source}"),
        Task::MakeDir { path } => format!("make {path}"),
        Task::AddWorktree { repo, branch, from, .. } => format!("add {repo} {branch} {from}"),
        Task::RemoveWorktree { source, target, force } => format!("undo {source} {target} {force}"),
        Task::RemoveDir { path } => format!("clear {path}"),
        Task::CopyFiles => "copy".into(),
        Task::MergeClaude => "merge".into(),
        Task::OverlayClaude => "overlay".into(),
        Task::Save => "save".into(),
        Task::Finish => "finish".into(),
    }
}

/// Runs a creation in which the tasks that begin with `fails` fail.
fn create(fails: &str) -> (Vec<String>, String) {
    let mut c = Creation::begin(the_plan());
    let mut done = Vec::new();
    loop {
        let task = name_of(&c.task());
        if task == "finish" {
            return (done, said(c.finish()));
        }
        let failed = task.starts_with(fails) || (fails == "add b" && task.starts_with("undo"));
        done.push(task);
        c.advance(if failed { Err(Error::Git("no".into())) } else { Ok(()) });
    }
}

#[test]
fn a_workspace_is_created_step_by_step() {
    let (done, end) = create("nothing");
    assert_eq!(
        done,
        vec![
            "check /src/a",
            "check /src/b",
            "fetch a /src/a",
            "fetch b /src/b",
            "make /home/k/cutter/feat",
            "add a feat origin/dev",
            "add b feat origin/b",
            "copy",
            "merge",
            "overlay",
            "save",
        ]
    );
    assert_eq!(end, "ok");
}

#[test]
fn nothing_is_made_before_all_is_checked() {
    let (done, end) = create("check /src/b");
    assert_eq!(done, vec!["check /src/a", "check /src/b"]);
    assert_eq!(end, "Git error: no");
    let (done, _) = create("fetch b");
    assert_eq!(done.len(), 4);
}

#[test]
fn a_worktree_that_fails_is_rolled_back() {
    let (done, end) = create("add b");
    assert_eq!(
        done[5..].to_vec(),
        vec![
            "add a feat origin/dev",
            "add b feat origin/b",
            "undo /src/a /home/k/cutter/feat/a true",
            "clear /home/k/cutter/feat",
        ]
    );
    assert_eq!(end, "Git error: no");
}

#[test]
fn later_failures_are_not_rolled_back() {
    for step in ["copy", "merge", "overlay", "save"] {
        let (done, end) = create(step);
        assert_eq!(done.last().map(|s| s.as_str()), Some(step));
        assert_eq!(end, "Git error: no");
    }
}

#[test]
fn files_are_copied_from_each_repo() {
    let pairs = the_plan().copy_base_files();
    let shown: Vec<String> = pairs.iter().map(|(a, b)| format!("{a} > {b}")).collect();
    assert_eq!(
        shown,
        vec![
            "/src/a/.env > /home/k/cutter/feat/a/.env",
            "/src/a/x/y > /home/k/cutter/feat/a/x/y",
            "/src/b/.env > /home/k/cutter/feat/b/.env",
            "/src/b/x/y > /home/k/cutter/feat/b/x/y",
        ]
    );
}

#[test]
fn what_was_created_is_remembered() {
    let w = the_plan().workspace_config(Timestamp { secs: 7, nanos: 8 });
    assert_eq!(w.workspace.name, "feat");
    assert_eq!(w.workspace.branch, "feat");
    assert_eq!(w.workspace.base, "one");
    assert_eq!(w.workspace.path, "/home/k/cutter/feat");
    assert_eq!((w.workspace.created_at.secs, w.workspace.created_at.nanos), (7, 8));
    assert_eq!(w.repos[1].name, "b");
    assert_eq!(w.repos[1].source, "/src/b");
    assert_eq!(w.repos[1].branch, "feat");
    assert_eq!(w.repos[1].worktree_path, "/home/k/cutter/feat/b");
    assert!(w.linked_windows.is_empty());
}

#[test]
fn questions_are_asked_where_something_is_missing() {
    assert_eq!(name_problem(" ", false).as_deref(), Some("Name cannot be empty"));
    assert_eq!(name_problem("x", true).as_deref(), Some("Workspace 'x' already exists"));
    assert_eq!(name_problem("x", false), None);
    assert_eq!(base_items(&config()).unwrap(), vec!["one (a, b)", "two (c)"]);
    assert_eq!(
        said(base_items(&Config::default())),
        "Git error: No bases configured. Add one with `cutter base add`."
    );
    assert!(asks_mode(false, true, ClaudeMode::Off, false));
    assert!(!asks_mode(true, true, ClaudeMode::Off, false));
    assert!(!asks_mode(false, true, ClaudeMode::Normal, false));
    assert!(!asks_mode(false, false, ClaudeMode::Off, true));
    assert_eq!(mode_at(0), ClaudeMode::Off);
    assert_eq!(mode_at(1), ClaudeMode::Normal);
    assert_eq!(mode_at(2), ClaudeMode::DangerouslySkipPermissions);
}

#[test]
fn permissions_are_collected() {
    let mut allow = vec!["a".to_string()];
    let mut deny = Vec::new();
    let text = r#"{"permissions":{"allow":["b",1,"a"],"deny":"x"},"other":[]}"#;
    merge_settings_json(text, &mut allow, &mut deny).unwrap();
    assert_eq!(allow, vec!["a", "b", "a"]);
    assert!(deny.is_empty());
    assert!(said(merge_settings_json("{", &mut allow, &mut deny)).starts_with("Config error: "));
    assert_eq!(allow.len(), 3);
    let doc = print_json(settings_document(&allow, &vec![])).unwrap();
    assert_eq!(
        doc,
        "{\n  \"permissions\": {\n    \"allow\": [\n      \"a\",\n      \"b\"\n    ]\n  }\n}"
    );
}

fn servers(text: &str) -> Vec<(String, Json)> {
    servers_in(parse_json(text).unwrap())
}

fn names(list: &[(String, Json)]) -> Vec<&str> {
    list.iter().map(|(n, _)| n.as_str()).collect()
}

#[test]
fn a_server_of_the_same_name_is_renamed() {
    let mut all = Vec::new();
    merge_mcp_json(r#"{"mcpServers":{"s":1,"t":2}}"#, "a", &mut all).unwrap();
    merge_mcp_json(r#"{"mcpServers":{"s":3,"u":4}}"#, "b", &mut all).unwrap();
    assert_eq!(names(&all), vec!["b/s", "s", "t", "u"]);
    assert!(matches!(all[0].1, Json::UInt(3)));
    assert!(matches!(all[1].1, Json::UInt(1)));
    // A third one takes the place of the renamed one of its own repo.
    add_servers(&mut all, "b", servers(r#"{"mcpServers":{"s":5}}"#));
    assert!(matches!(all[0].1, Json::UInt(5)));
    assert!(merge_mcp_json("nope", "b", &mut all).is_err());
    assert!(servers("[]").is_empty());
}

#[test]
fn a_server_of_the_base_wins() {
    let mut all = servers(r#"{"mcpServers":{"s":1,"t":2}}"#);
    override_servers(&mut all, servers(r#"{"mcpServers":{"s":9,"a":8}}"#));
    assert_eq!(names(&all), vec!["a", "s", "t"]);
    assert!(matches!(all[1].1, Json::UInt(9)));
    let text = print_json(mcp_document(all)).unwrap();
    assert_eq!(
        text,
        "{\n  \"mcpServers\": {\n    \"a\": 8,\n    \"s\": 9,\n    \"t\": 2\n  }\n}"
    );
}

#[test]
fn files_have_their_places() {
    let who = helper();
    assert_eq!(part_of(&who, "HELPER.md"), Part::Guide);
    assert_eq!(part_of(&who, "x/HELPER.md"), Part::Other);
    assert_eq!(part_of(&who, "settings.local.json"), Part::Settings);
    assert_eq!(part_of(&who, "mcp.json"), Part::Mcp);
    assert_eq!(place("a", "skills/x/SKILL.md"), "skills/a/x/SKILL.md");
    assert_eq!(place("a", "agents/y.md"), "agents/a/y.md");
    assert_eq!(place("a", "commands/z.md"), "commands/z.md");
    assert_eq!(place("a", "skills"), "skills");
}

#[test]
fn guides_are_referred_to() {
    let who = helper();
    assert_eq!(guide(&who, "a", true, true).as_deref(), Some("a/HELPER.md"));
    assert_eq!(guide(&who, "a", false, true).as_deref(), Some("a/.helper/HELPER.md"));
    assert_eq!(guide(&who, "a", false, false), None);
    let text = workspace_guide(&vec!["a/HELPER.md".into(), "b/HELPER.md".into()]);
    assert!(text.starts_with("# Workspace\n"));
    assert!(text.ends_with("- `a/HELPER.md`\n- `b/HELPER.md`\n"));
}

fn shown(a: &FileAction) -> String {
    match a {
        FileAction::Write { path, text } => format!("{path} = {text}"),
        FileAction::Copy { from, to } => format!("{from} > {to}"),
    }
}

#[test]
fn directories_are_merged() {
    let who = helper();
    let mut all = Assembly::new();
    for repo in ["a", "b"] {
        let mut add = |rel: &str, content: &str| {
            all.collect_claude_entry(&who, repo, rel, &format!("/{repo}/{rel}"), content).unwrap()
        };
        add("HELPER.md", "not read");
        add("settings.local.json", r#"{"permissions":{"allow":["z","a"],"deny":["d"]}}"#);
        add("mcp.json", r#"{"mcpServers":{"s":true}}"#);
        add("skills/x/S.md", "");
        add("notes/n.md", "");
    }
    all.collect_claude_entry(&who, "b", "only.txt", "/b/only.txt", "").unwrap();
    let actions = merge_claude_dirs(&who, "/w/.helper", &vec![], all).unwrap();
    let lines: Vec<String> = actions.iter().map(shown).collect();
    assert!(lines[0].starts_with("/w/.helper/HELPER.md = # Workspace\n"));
    assert_eq!(
        lines[1],
        "/w/.helper/settings.local.json = {\n  \"permissions\": {\n    \"allow\": [\n      \"a\",\n      \"z\"\n    ],\n    \"deny\": [\n      \"d\"\n    ]\n  }\n}\n"
    );
    assert_eq!(
        lines[2],
        "/w/.helper/mcp.json = {\n  \"mcpServers\": {\n    \"b/s\": true,\n    \"s\": true\n  }\n}\n"
    );
    assert_eq!(
        lines[3..].to_vec(),
        vec![
            "/a/notes/n.md > /w/.helper/notes/a.n.md",
            "/b/notes/n.md > /w/.helper/notes/b.n.md",
            "/b/only.txt > /w/.helper/only.txt",
            "/a/skills/x/S.md > /w/.helper/skills/a/x/S.md",
            "/b/skills/x/S.md > /w/.helper/skills/b/x/S.md",
        ]
    );
}

#[test]
fn the_guide_is_always_written() {
    let actions = merge_claude_dirs(&helper(), "/w/.helper", &vec![], Assembly::new()).unwrap();
    assert_eq!(actions.len(), 1);
    let mut all = Assembly::new();
    let r = all.collect_claude_entry(&helper(), "a", "mcp.json", "/a/mcp.json", "{");
    assert!(said(r).starts_with("Config error: "));
}

#[test]
fn the_base_is_laid_over_the_workspace() {
    let who = helper();
    assert_eq!(base_claude_dir(&who, &env(), "one").unwrap(), "/cfg/bases/one/.helper");
    assert_eq!(settings_path(&who, "/w"), "/w/.helper/settings.local.json");
    assert_eq!(
        overlay_claude_md(&who, Some("here".into()), "\n more \n"),
        "here\n\n# HELPER.md (from base)\n\nmore\n"
    );
    assert_eq!(
        overlay_claude_md(&who, Some("here\n".into()), "more"),
        "here\n\n# HELPER.md (from base)\n\nmore\n"
    );
    assert_eq!(overlay_claude_md(&who, None, "more"), "# HELPER.md (from base)\n\nmore\n");
    assert_eq!(overlay_file(&who, "x.txt", None, "x").unwrap(), None);
    assert_eq!(
        overlay_file(&who, "HELPER.md", None, "more").unwrap(),
        Some("# HELPER.md (from base)\n\nmore\n".into())
    );
}

#[test]
fn permissions_of_the_base_are_merged_in() {
    let here = r#"{"permissions":{"allow":["b","a"]},"model":"x"}"#;
    let base = r#"{"permissions":{"allow":["a","c"],"deny":["d","d"]}}"#;
    let text = overlay_settings(Some(here.into()), base).unwrap();
    let v: serde_json::Value = serde_json::from_str(&text).unwrap();
    assert_eq!(v["permissions"]["allow"].as_array().unwrap().len(), 3);
    assert_eq!(v["permissions"]["deny"].as_array().unwrap().len(), 1);
    assert!(v.get("model").is_none());
    assert_eq!(overlay_settings(None, "{}").unwrap(), "{\n  \"permissions\": {}\n}\n");
    assert!(overlay_settings(Some("nope".into()), "{}").is_err());
    assert!(overlay_settings(None, "nope").is_err());
}

#[test]
fn servers_of_the_base_are_put_in() {
    let text =
        overlay_mcp(Some(r#"{"mcpServers":{"s":1}}"#.into()), r#"{"mcpServers":{"s":2,"t":3}}"#);
    assert_eq!(
        text.unwrap(),
        "{\n  \"mcpServers\": {\n    \"s\": 2,\n    \"t\": 3\n  }\n}\n"
    );
    assert_eq!(overlay_mcp(None, "{}").unwrap(), "{\n  \"mcpServers\": {}\n}\n");
    assert!(overlay_mcp(None, "").is_err());
}

#[test]
fn documents_are_read_and_written() {
    let j = read_document(" {\"b\": [1, -2, 1.5, null, true], \"a\": \"é\"} ").unwrap();
    assert_eq!(j.get("a").and_then(|t| t.text()).map(|s| s.as_str()), Some("é"));
    assert_eq!(j.get("b").and_then(|t| t.items()).map(|v| v.len()), Some(5));
    assert!(j.get("c").is_none());
    let text = write_document(j).unwrap();
    assert_eq!(
        text,
        "{\n  \"a\": \"é\",\n  \"b\": [\n    1,\n    -2,\n    1.5,\n    null,\n    true\n  ]\n}\n"
    );
    assert!(said(read_document("[")).starts_with("Config error: EOF while parsing"));
    let fields = parse_json(r#"{"x":1,"x":2}"#).unwrap().into_fields();
    assert_eq!(fields.len(), 1);
    assert!(matches!(fields[0].1, Json::UInt(2)));
}
