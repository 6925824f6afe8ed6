//! Configuration, workspaces and errors.
use cutter::config::{
    canonicalize_repo_path, config_dir, config_file_path, expand_tilde, start_point,
    workspace_root_dir, workspaces_dir, Base, Config, Environment, RepoRef, Settings,
};
use cutter::error::Error;
use cutter::time::Timestamp;
use cutter::workspace::{
    is_workspace_file, workspace_config_path, WorkspaceConfig, WorkspaceInfo,
};

fn home() -> Environment {
    Environment { config_dir: None, workspace_root: None, home: Some("/home/k".into()) }
}

fn nowhere() -> Environment {
    Environment { config_dir: None, workspace_root: None, home: None }
}

fn repo(branch_from: Option<&str>) -> RepoRef {
    RepoRef { name: "r".into(), path: "/r".into(), branch_from: branch_from.map(|s| s.into()) }
}

fn base(branch_from: Option<&str>) -> Base {
    Base { repos: vec![], branch_from: branch_from.map(|s| s.into()), copy_files: vec![] }
}

fn workspace(name: &str, path: &str) -> WorkspaceConfig {
    WorkspaceConfig {
        workspace: WorkspaceInfo {
            name: name.into(),
            base: "b".into(),
            branch: name.into(),
            path: path.into(),
            created_at: Timestamp { secs: 0, nanos: 0 },
        },
        repos: vec![],
        linked_windows: vec![],
    }
}

#[test]
fn the_configuration_is_in_the_home_directory() {
    assert_eq!(config_dir(&home()).unwrap(), "/home/k/.config/cutter");
    assert_eq!(config_file_path(&home()).unwrap(), "/home/k/.config/cutter/config.toml");
    assert_eq!(workspaces_dir(&home()).unwrap(), "/home/k/.config/cutter/workspaces");
    assert_eq!(
        workspace_config_path(&home(), "feat").unwrap(),
        "/home/k/.config/cutter/workspaces/feat.toml"
    );
}

#[test]
fn the_environment_overrides_directories() {
    let env = Environment {
        config_dir: Some("/cfg".into()),
        workspace_root: Some("/root".into()),
        home: None,
    };
    assert_eq!(config_file_path(&env).unwrap(), "/cfg/config.toml");
    assert_eq!(workspace_root_dir(&Config::default(), &env), "/root");
    assert_eq!(workspace_root_dir(&Config::default(), &home()), "/home/k/cutter");
}

#[test]
fn without_a_home_there_is_no_configuration() {
    match config_dir(&nowhere()) {
        Err(Error::Config(m)) => assert_eq!(m, "Could not determine config directory"),
        other => panic!("{other:?}"),
    }
}

#[test]
fn a_leading_tilde_is_the_home_directory() {
    assert_eq!(expand_tilde("~/x/y", &home()), "/home/k/x/y");
    assert_eq!(expand_tilde("~", &home()), "~");
    assert_eq!(expand_tilde("~/x", &nowhere()), "~/x");
    assert_eq!(expand_tilde("/a/~/x", &home()), "/a/~/x");
    // What follows the tilde may be absolute.
    assert_eq!(expand_tilde("~//x", &home()), "/x");
}

#[test]
fn repos_must_exist() {
    assert_eq!(canonicalize_repo_path("a", Some("/x/a".into())).unwrap(), "/x/a");
    match canonicalize_repo_path("a", None) {
        Err(e) => assert_eq!(e.message(), "Path does not exist: a"),
        Ok(p) => panic!("{p}"),
    }
}

#[test]
fn the_nearest_start_point_wins() {
    let settings = Settings::default();
    assert_eq!(settings.default_branch_from, "origin/main");
    assert_eq!(settings.workspace_root, "~/cutter");
    assert_eq!(start_point(&repo(None), &base(None), &settings), "origin/main");
    assert_eq!(start_point(&repo(None), &base(Some("b")), &settings), "b");
    assert_eq!(start_point(&repo(Some("r")), &base(Some("b")), &settings), "r");
    assert_eq!(start_point(&repo(Some("r")), &base(None), &settings), "r");
}

#[test]
fn without_a_file_the_defaults_hold() {
    let c = Config::load(None);
    assert_eq!(c.settings.workspace_root, "~/cutter");
    assert!(c.bases.is_empty());
    let own = Config { settings: Settings::default(), bases: vec![("a".into(), base(None))] };
    assert_eq!(Config::load(Some(own)).bases.len(), 1);
}

#[test]
fn bases_are_found_by_name() {
    let config = Config {
        settings: Settings::default(),
        bases: vec![("a".into(), base(Some("x"))), ("b".into(), base(None))],
    };
    assert_eq!(config.base("a").unwrap().branch_from.as_deref(), Some("x"));
    assert!(config.base("c").is_none());
}

#[test]
fn workspaces_are_files_with_an_extension() {
    assert!(is_workspace_file("/w/feat.toml"));
    assert!(!is_workspace_file("/w/feat.toml~"));
    assert!(!is_workspace_file("/w/toml"));
    assert!(!is_workspace_file("/w/.toml"));
}

#[test]
fn a_workspace_that_is_not_there_is_not_loaded() {
    match WorkspaceConfig::load("feat", None) {
        Err(e) => assert_eq!(e.message(), "Workspace 'feat' not found"),
        Ok(w) => panic!("{w:?}"),
    }
    let w = WorkspaceConfig::load("feat", Some(workspace("feat", "/w"))).unwrap();
    assert_eq!(w.workspace.path, "/w");
}

#[test]
fn workspaces_are_listed_by_name() {
    let found = vec![
        workspace("b", "/1"),
        workspace("a", "/2"),
        workspace("B", "/3"),
        workspace("a", "/4"),
        workspace("é", "/5"),
    ];
    let paths: Vec<String> =
        WorkspaceConfig::list_all(found).iter().map(|w| w.workspace.path.clone()).collect();
    // Equal names keep their order.
    assert_eq!(paths, vec!["/3", "/2", "/4", "/1", "/5"]);
}

#[test]
fn every_error_has_a_message() {
    let messages: Vec<String> = vec![
        Error::BaseNotFound("x".into()),
        Error::BaseAlreadyExists("x".into()),
        Error::WorkspaceAlreadyExists("x".into()),
        Error::WorkspaceNotFound("x".into()),
        Error::NotAGitRepo("/x".into()),
        Error::PathNotFound("/x".into()),
        Error::Git("x".into()),
        Error::Config("x".into()),
        Error::Io("x".into()),
        Error::TomlSerialize("x".into()),
        Error::TomlDeserialize("x".into()),
    ]
    .iter()
    .map(|e| e.message())
    .collect();
    assert_eq!(
        messages,
        vec![
            "Base 'x' not found",
            "Base 'x' already exists",
            "Workspace 'x' already exists",
            "Workspace 'x' not found",
            "Path is not a git repository: /x",
            "Path does not exist: /x",
            "Git error: x",
            "Config error: x",
            "IO error: x",
            "TOML serialization error: x",
            "TOML deserialization error: x",
        ]
    );
}

#[test]
fn moments_are_written_in_two_ways() {
    let t = Timestamp { secs: 1_700_000_000, nanos: 5 };
    assert_eq!(t.minute_label().as_deref(), Some("2023-11-14 22:13 UTC"));
    assert_eq!(t.clock_label().as_deref(), Some("22:13:20 UTC"));
    assert_eq!(Timestamp { secs: i64::MAX, nanos: 0 }.minute_label(), None);
}
