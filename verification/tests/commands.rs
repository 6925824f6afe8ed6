//! The commands.
use cutter::assistant::Assistant;
use cutter::cli::{BaseCommand, ClaudeMode, Cli, Command, Request, SessionEvent};
use cutter::commands::ai::{
    self, build_prompt, check, check_prompt, resolve_cutter, session_args,
};
use cutter::commands::base::{add, list as list_bases, remove as remove_base, update, Inspected};
use cutter::commands::headless::{
    augmented_path, binary_candidates, capture_args, common_bin_dirs, find_binary, launch_error,
    read_error, resolve_claude, run_headless_capture, send_error, session_error,
    withheld_variables,
};
use cutter::commands::list;
use cutter::commands::open::{claude_args, claude_exit, run as open, Opening};
use cutter::commands::remove::{run as begin_removal, Removal, Task as RemovalTask};
use cutter::commands::status::{row, Tone};
use cutter::config::{Base, Config, RepoRef, Settings};
use cutter::error::Error;
use cutter::git::RepoStatus;
use cutter::session::{aggregate, SessionRecord, SessionState};
use cutter::time::Timestamp;
use cutter::workspace::{WorkspaceConfig, WorkspaceInfo, WorkspaceRepo};

fn helper() -> Assistant {
    Assistant {
        title: "Helper".into(),
        product: "Helper Kit".into(),
        program: "helper".into(),
        dir: ".helper".into(),
        guide: "HELPER.md".into(),
    }
}

fn repo(name: &str) -> RepoRef {
    RepoRef { name: name.into(), path: format!("/src/{name}"), branch_from: None }
}

fn base(names: &[&str]) -> Base {
    Base { repos: names.iter().map(|n| repo(n)).collect(), branch_from: None, copy_files: vec![] }
}

fn config() -> Config {
    Config {
        settings: Settings::default(),
        bases: vec![("one".into(), base(&["a", "b"])), ("two".into(), base(&["c"]))],
    }
}

fn workspace(repos: &[&str]) -> WorkspaceConfig {
    WorkspaceConfig {
        workspace: WorkspaceInfo {
            name: "feat".into(),
            base: "one".into(),
            branch: "feat".into(),
            path: "/w/feat".into(),
            created_at: Timestamp { secs: 0, nanos: 0 },
        },
        repos: repos
            .iter()
            .map(|n| WorkspaceRepo {
                name: n.to_string(),
                source: format!("/src/{n}"),
                branch: "feat".into(),
                worktree_path: format!("/w/feat/{n}"),
            })
            .collect(),
        linked_windows: vec![],
    }
}

fn seen(path: &str, canonical: Option<&str>, is_repo: bool) -> Inspected {
    Inspected { path: path.into(), canonical: canonical.map(|s| s.into()), is_repo }
}

fn said<T>(r: Result<T, Error>) -> String {
    match r {
        Ok(_) => "ok".into(),
        Err(e) => e.message(),
    }
}

#[test]
fn bases_are_added_in_order() {
    let mut c = Config::default();
    let paths = vec![seen("b", Some("/src/b"), true), seen("/", Some("/"), true)];
    add(&mut c, "two", paths).unwrap();
    add(&mut c, "one", vec![seen("x", Some("/src/x"), true)]).unwrap();
    let names: Vec<&str> = c.bases.iter().map(|(n, _)| n.as_str()).collect();
    assert_eq!(names, vec!["one", "two"]);
    let two = c.base("two").unwrap();
    assert_eq!((two.repos[0].name.as_str(), two.repos[0].path.as_str()), ("b", "/src/b"));
    assert_eq!((two.repos[1].name.as_str(), two.repos[1].path.as_str()), ("unknown", "/"));
    assert!(two.branch_from.is_none() && two.copy_files.is_empty());
}

#[test]
fn a_base_that_is_refused_changes_nothing() {
    let mut c = config();
    assert_eq!(said(add(&mut c, "one", vec![])), "Base 'one' already exists");
    let missing = vec![seen("no", None, false), seen("f", Some("/f"), false)];
    assert_eq!(said(add(&mut c, "new", missing)), "Path does not exist: no");
    let file = vec![seen("f", Some("/f"), false)];
    assert_eq!(said(add(&mut c, "new", file)), "Path is not a git repository: /f");
    assert_eq!(said(update(&mut c, "new", base(&[]))), "Base 'new' not found");
    assert_eq!(said(remove_base(&mut c, "new")), "Base 'new' not found");
    assert_eq!(c.bases.len(), 2);
}

#[test]
fn removing_a_base_undoes_adding_it() {
    let mut c = config();
    add(&mut c, "three", vec![seen("x", Some("/x"), true)]).unwrap();
    remove_base(&mut c, "three").unwrap();
    let names: Vec<&str> = c.bases.iter().map(|(n, _)| n.as_str()).collect();
    assert_eq!(names, vec!["one", "two"]);
    update(&mut c, "one", base(&["z"])).unwrap();
    assert_eq!(c.base("one").unwrap().repos[0].name, "z");
}

#[test]
fn bases_are_listed_with_their_repos() {
    let rows = list_bases(&config());
    assert_eq!((rows[0].name.as_str(), rows[0].repos.as_str()), ("one", "a, b"));
    assert_eq!((rows[1].name.as_str(), rows[1].repos.as_str()), ("two", "c"));
}

#[test]
fn a_workspace_is_printed_or_entered() {
    match open("feat", ClaudeMode::Off, Some(workspace(&[]))).unwrap() {
        Opening::Print(p) => assert_eq!(p, "/w/feat"),
        other => panic!("{other:?}"),
    }
    match open("feat", ClaudeMode::DangerouslySkipPermissions, Some(workspace(&[]))).unwrap() {
        Opening::Launch { dir, args } => {
            assert_eq!(dir, "/w/feat");
            assert_eq!(args, vec!["--dangerously-skip-permissions"]);
        }
        other => panic!("{other:?}"),
    }
    assert_eq!(said(open("x", ClaudeMode::Off, None)), "Workspace 'x' not found");
    assert_eq!(claude_args(ClaudeMode::Off), None);
    assert_eq!(claude_args(ClaudeMode::Normal), Some(vec![]));
    assert_eq!(said(claude_exit(&helper(), true)), "ok");
    assert_eq!(said(claude_exit(&helper(), false)), "Git error: helper exited with non-zero status");
}

#[test]
fn workspaces_are_listed_with_their_sessions() {
    let records = vec![SessionRecord {
        session_id: "s".into(),
        workspace: "feat".into(),
        cwd: "/w/feat".into(),
        state: SessionState::Waiting,
        updated_at: Timestamp { secs: 0, nanos: 0 },
        pid: None,
    }];
    let rows = list::run(&vec![workspace(&["a", "b"])], &aggregate(&records));
    assert_eq!(rows[0].repos, "2");
    assert_eq!(rows[0].path, "/w/feat");
    assert_eq!(rows[0].session, "waiting for input");
    let rows = list::run(&vec![workspace(&[])], &aggregate(&vec![]));
    assert_eq!(rows[0].session, "");
}

fn state(ahead: u32, behind: u32, changed: u32, untracked: u32) -> RepoStatus {
    RepoStatus { branch: "feat".into(), ahead, behind, changed, untracked }
}

#[test]
fn statuses_are_put_in_words() {
    let r = row("a", Ok(state(0, 0, 0, 0)));
    assert_eq!((r.branch.as_str(), r.status.as_str(), r.tone), ("feat", "clean", Tone::Good));
    let r = row("a", Ok(state(3, 4, 1, 2)));
    assert_eq!(r.status, "1 changed, 2 untracked, ahead 3, behind 4");
    assert_eq!(r.tone, Tone::Notable);
    assert_eq!(row("a", Ok(state(0, 4, 0, 0))).status, "behind 4");
    let r = row("a", Err(Error::Git("oops".into())));
    assert_eq!((r.branch.as_str(), r.status.as_str()), ("?", "error: Git error: oops"));
    assert_eq!(r.tone, Tone::Bad);
}

/// Runs a removal, failing what `fails` says, and tells what was done.
fn remove_all(mut r: Removal, fails: impl Fn(&RemovalTask) -> bool) -> (Vec<String>, String) {
    let mut done = Vec::new();
    loop {
        let task = r.task();
        match &task {
            RemovalTask::RemoveWorktree { repo, force, target, .. } => {
                assert_eq!(target, &format!("/w/feat/{repo}"));
                done.push(format!("remove {repo} {force}"))
            }
            RemovalTask::Unlink { repo, link } => done.push(format!("unlink {repo} {link}")),
            RemovalTask::Prune { repo, source } => done.push(format!("prune {repo} {source}")),
            RemovalTask::DeleteBranch { repo, branch, .. } => {
                done.push(format!("branch {repo} {branch}"))
            }
            RemovalTask::RemoveDir { path } => done.push(format!("dir {path}")),
            RemovalTask::Forget { name } => done.push(format!("forget {name}")),
            RemovalTask::Finish => return (done, said(r.finish())),
        }
        let result = if fails(&task) { Err(Error::Git("no".into())) } else { Ok(()) };
        r.advance(result);
    }
}

#[test]
fn every_repo_is_removed() {
    let r = begin_removal("feat", false, Some(workspace(&["a", "b"]))).unwrap();
    let (done, end) = remove_all(r, |_| false);
    assert_eq!(
        done,
        vec![
            "remove a false",
            "branch a feat",
            "remove b false",
            "branch b feat",
            "dir /w/feat",
            "forget feat",
        ]
    );
    assert_eq!(end, "ok");
}

#[test]
fn worktrees_that_resist_are_forced() {
    let r = begin_removal("feat", false, Some(workspace(&["a"]))).unwrap();
    let (done, end) = remove_all(r, |t| {
        matches!(t, RemovalTask::RemoveWorktree { .. } | RemovalTask::DeleteBranch { .. })
    });
    assert_eq!(
        done,
        vec!["remove a false", "remove a true", "branch a feat", "dir /w/feat", "forget feat"]
    );
    assert_eq!(end, "ok");
}

#[test]
fn files_are_kept_where_asked_for() {
    let expected = vec![
        "unlink a /w/feat/a/.git",
        "prune a /src/a",
        "branch a feat",
        "unlink b /w/feat/b/.git",
        "prune b /src/b",
        "branch b feat",
        "forget feat",
    ];
    let r = begin_removal("feat", true, Some(workspace(&["a", "b"]))).unwrap();
    let (done, end) = remove_all(r, |_| false);
    assert_eq!(done, expected);
    assert_eq!(end, "ok");
    let r = begin_removal("feat", true, Some(workspace(&["a", "b"]))).unwrap();
    let (done, end) = remove_all(r, |t| !matches!(t, RemovalTask::Forget { .. }));
    assert_eq!(done, expected);
    assert_eq!(end, "ok");
}

#[test]
fn the_name_that_was_given_is_forgotten() {
    for keep_files in [true, false] {
        let r = begin_removal("outer", keep_files, Some(workspace(&[]))).unwrap();
        let (done, end) = remove_all(r, |_| false);
        assert_eq!(done.last().map(|s| s.as_str()), Some("forget outer"));
        assert_eq!(end, "ok");
    }
}

#[test]
fn headless_sessions_get_no_key_and_no_tools() {
    assert_eq!(capture_args(), vec!["-p"]);
    assert_eq!(withheld_variables(), vec!["ANTHROPIC_API_KEY"]);
}

#[test]
fn a_directory_that_stays_is_an_error() {
    let r = begin_removal("feat", false, Some(workspace(&[]))).unwrap();
    let (done, end) = remove_all(r, |t| matches!(t, RemovalTask::RemoveDir { .. }));
    assert_eq!(done, vec!["dir /w/feat"]);
    assert_eq!(end, "Git error: no");
    assert_eq!(said(begin_removal("x", false, None)), "Workspace 'x' not found");
}

#[test]
fn programs_are_looked_for_in_order() {
    let path = vec!["/bin".to_string(), "/opt".to_string()];
    let all = binary_candidates(&helper(), "gh", &path, Some("/home/k"));
    assert_eq!(
        all,
        vec![
            "/bin/gh",
            "/opt/gh",
            "/home/k/.cargo/bin/gh",
            "/home/k/.local/bin/gh",
            "/home/k/.helper/local/gh",
            "/home/k/.npm-global/bin/gh",
            "/home/k/.volta/bin/gh",
            "/opt/homebrew/bin/gh",
            "/usr/local/bin/gh",
            "/usr/bin/gh",
        ]
    );
    let found = vec![false, true, true];
    assert_eq!(find_binary(all[0..3].to_vec(), &found).as_deref(), Some("/opt/gh"));
    assert_eq!(find_binary(vec!["/x".into()], &vec![false]), None);
    assert_eq!(
        common_bin_dirs(&helper(), None),
        vec!["/opt/homebrew/bin", "/usr/local/bin", "/usr/bin"]
    );
}

#[test]
fn the_search_path_has_each_directory_once() {
    let path = vec!["/usr/bin/".to_string(), "/x".to_string(), "/first".to_string()];
    assert_eq!(
        augmented_path(&helper(), Some("/first".into()), None, &path),
        vec!["/first", "/opt/homebrew/bin", "/usr/local/bin", "/usr/bin", "/x"]
    );
}

#[test]
fn the_configured_program_comes_first() {
    let some = |s: &str| Some(s.to_string());
    assert_eq!(resolve_claude(&helper(), some("/c"), some("/f")), "/c");
    assert_eq!(resolve_claude(&helper(), some(""), some("/f")), "/f");
    assert_eq!(resolve_claude(&helper(), None, some("/f")), "/f");
    assert_eq!(resolve_claude(&helper(), some(""), None), "helper");
    assert_eq!(resolve_claude(&helper(), None, None), "helper");
}

#[test]
fn headless_sessions_can_fail() {
    let who = helper();
    assert_eq!(
        launch_error(&who, "e").message(),
        "Git error: could not launch `helper` (e). Is Helper Kit installed and on your PATH?"
    );
    assert_eq!(send_error(&who, "e").message(), "Git error: failed to send prompt to helper: e");
    assert_eq!(read_error(&who, "e").message(), "Git error: failed to read helper output: e");
    assert_eq!(session_error(&who, "e").message(), "Git error: helper session failed: e");
    assert_eq!(run_headless_capture(&who, true, " ".into()).unwrap(), " ");
    assert_eq!(run_headless_capture(&who, false, "x".into()).unwrap(), "x");
    assert_eq!(
        said(run_headless_capture(&who, false, " \n".into())),
        "Git error: helper session ended without output"
    );
}

#[test]
fn a_request_needs_words_and_bases() {
    assert_eq!(check_prompt("  fix it\n").unwrap(), "fix it");
    assert_eq!(said(check_prompt(" \n")), said(check(" \n", &Config::default())));
    assert_eq!(check("  fix it\n", &config()).unwrap(), "fix it");
    match check(" \n", &config()) {
        Err(Error::InvalidWorkspaceName(m)) => assert_eq!(m, "no prompt provided"),
        other => panic!("{other:?}"),
    }
    assert_eq!(
        said(check("x", &Config::default())),
        "Git error: No bases configured. Add one with `cutter base add` first."
    );
}

#[test]
fn the_prompt_ends_with_the_request() {
    let p = build_prompt("fix it", &config(), Some("two"));
    assert!(p.starts_with("You are helping set up a new \"cutter\" workspace"));
    assert!(p.contains("\n       cutter create <name> --base <base>\n\n"));
    assert!(p.contains(
        "Available bases:\n- one (repos: a, b)\n- two (repos: c)\n\nThe user pre-selected the base `two`."
    ));
    assert!(p.ends_with("\nUser request:\nfix it"));
    assert!(!build_prompt("fix it", &config(), None).contains("pre-selected"));
}

#[test]
fn the_program_that_creates_is_found() {
    let some = |s: &str| Some(s.to_string());
    assert_eq!(resolve_cutter(some("/b/cutter"), some("/f")).unwrap(), "/b/cutter");
    assert_eq!(resolve_cutter(some("/b/cutter-gui"), some("/f")).unwrap(), "/f");
    assert_eq!(resolve_cutter(None, some("/f")).unwrap(), "/f");
    assert!(said(resolve_cutter(some("/b/x"), None)).contains("Could not find the `cutter` CLI"));
    assert_eq!(
        session_args().join(" "),
        "-p --allowedTools Bash(cutter:*),Bash(git:*),Read,Grep,Glob,WebFetch,WebSearch"
    );
}

#[test]
fn what_a_session_created_is_new() {
    let v = |names: &[&str]| -> Vec<String> { names.iter().map(|s| s.to_string()).collect() };
    let who = helper();
    assert_eq!(ai::run(&who, &v(&["a"]), &v(&["c", "a", "b"]), false).unwrap(), v(&["b", "c"]));
    assert_eq!(
        said(ai::run(&who, &v(&["a"]), &v(&["a"]), true)),
        "Git error: Helper finished but no new workspace was created."
    );
    assert_eq!(
        said(ai::run(&who, &v(&["a"]), &v(&[]), false)),
        "Git error: Helper session ended without creating a workspace."
    );
}

fn ask(command: Command) -> Result<Request, String> {
    Cli { command }.request(None)
}

fn create(print: bool, plain: bool, dangerous: bool, ai: Option<&str>) -> Command {
    Command::Create {
        name: None,
        base: Some("one".into()),
        print,
        open_claude: plain,
        open_claude_dangerous: dangerous,
        ai: ai.map(|s| s.into()),
    }
}

#[test]
fn arguments_become_requests() {
    let mode = |plain: bool, dangerous: bool| match ask(create(true, plain, dangerous, None)) {
        Ok(Request::Create { name: None, base: Some(_), print: true, mode }) => mode,
        other => panic!("{other:?}"),
    };
    assert_eq!(mode(false, false), ClaudeMode::Off);
    assert_eq!(mode(true, false), ClaudeMode::Normal);
    assert_eq!(mode(false, true), ClaudeMode::DangerouslySkipPermissions);
    assert_eq!(mode(true, true), ClaudeMode::DangerouslySkipPermissions);
    match ask(create(false, false, false, Some("do it"))) {
        Ok(Request::CreateByAi { prompt, base }) => {
            assert_eq!((prompt.as_str(), base.as_deref()), ("do it", Some("one")))
        }
        other => panic!("{other:?}"),
    }
    assert!(matches!(
        ask(Command::OpenClaude { name: "x".into(), dangerous: true }),
        Ok(Request::Open { mode: ClaudeMode::DangerouslySkipPermissions, .. })
    ));
    assert!(matches!(
        ask(Command::Locate { name: "x".into() }),
        Ok(Request::Open { mode: ClaudeMode::Off, .. })
    ));
    assert!(matches!(
        ask(Command::Base { command: BaseCommand::Remove { name: "x".into() } }),
        Ok(Request::RemoveBase { .. })
    ));
    assert!(matches!(
        ask(Command::SessionEvent { event: SessionEvent::Stop, ppid: Some(2) }),
        Ok(Request::Note { event: SessionEvent::Stop, ppid: Some(2) })
    ));
    assert!(matches!(ask(Command::List), Ok(Request::List)));
}

#[test]
fn a_status_needs_a_name() {
    assert_eq!(ask(Command::Status { name: None }).unwrap_err(), "Please specify a workspace name");
    assert!(matches!(ask(Command::Status { name: Some("x".into()) }), Ok(Request::Status { .. })));
    let here = Cli { command: Command::Status { name: None } }.request(Some("feat".into()));
    assert!(matches!(here, Ok(Request::Status { name }) if name == "feat"));
    let given = Cli { command: Command::Status { name: Some("x".into()) } };
    let given = given.request(Some("feat".into()));
    assert!(matches!(given, Ok(Request::Status { name }) if name == "x"));
}
