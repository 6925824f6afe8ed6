//! The window: panes, forms and what they show.
use cutter::assistant::Assistant;
use cutter::config::{Base, Config, Environment, RepoRef, Settings};
use cutter::error::Error;
use cutter::git::RepoDiff;
use cutter::gui::diff::{
    base_ref_for, classify_diff_line, shown_line, shown_repo, DiffLineKind, DiffStore, DiffView,
    MadeDiff,
};
use cutter::gui::forms::{
    unlink, EditBaseForm, Jobs, LinkForm, NewBaseForm, NewWorkspaceForm, NewWsMode, PendingAction,
    RemoveTarget,
};
use cutter::gui::panes::{
    allow_focus, find_workspace, rename_outcome, selected_workspace, ListActions, Panes, Renaming,
    Selection, TabIntents, TermTab, WorkspaceTerminals,
};
use cutter::gui::screen::{
    any_modal_open, auto_link_done, auto_link_label, first_base, link_context, links_saved,
    pr_chips, raise_message, settings_cards, shown_title, status_bar, status_hover, take_config,
    take_workspaces, toggle_collapsed, top_bar, workspace_details, workspace_list, PrStore,
    StatusBar, Tab,
};
use cutter::pr::{PrInfo, PrState};
use cutter::session::{aggregate, SessionRecord, SessionState, WorkspaceStatus};
use cutter::time::Timestamp;
use cutter::window_manager::{RaiseReport, WindowInfo};
use cutter::workspace::{LinkedWindow, WorkspaceConfig, WorkspaceInfo, WorkspaceRepo};

fn helper() -> Assistant {
    Assistant {
        title: "Helper".into(),
        product: "Helper Kit".into(),
        program: "helper".into(),
        dir: ".helper".into(),
        guide: "HELPER.md".into(),
    }
}

fn link(title: &str, id: Option<u32>) -> LinkedWindow {
    LinkedWindow { app_name: "A".into(), title: title.into(), document_path: None, window_id: id }
}

fn window(title: &str) -> WindowInfo {
    WindowInfo {
        pid: 1,
        app_name: "A".into(),
        title: title.into(),
        document_path: None,
        window_id: None,
    }
}

fn workspace(name: &str, repos: &[&str], links: Vec<LinkedWindow>) -> WorkspaceConfig {
    WorkspaceConfig {
        workspace: WorkspaceInfo {
            name: name.into(),
            base: "one".into(),
            branch: name.into(),
            path: format!("/w/{name}"),
            created_at: Timestamp { secs: 1_700_000_000, nanos: 0 },
        },
        repos: repos
            .iter()
            .map(|n| WorkspaceRepo {
                name: n.to_string(),
                source: format!("/src/{n}"),
                branch: name.into(),
                worktree_path: format!("/w/{name}/{n}"),
            })
            .collect(),
        linked_windows: links,
    }
}

fn repo(name: &str, from: Option<&str>) -> RepoRef {
    RepoRef {
        name: name.into(),
        path: format!("/src/{name}"),
        branch_from: from.map(|s| s.into()),
    }
}

fn config() -> Config {
    Config {
        settings: Settings::default(),
        bases: vec![
            (
                "one".into(),
                Base {
                    repos: vec![repo("a", None), repo("b", Some("origin/b"))],
                    branch_from: Some("origin/dev".into()),
                    copy_files: vec![".env".into(), "x".into()],
                },
            ),
            (
                "two".into(),
                Base { repos: vec![repo("c", None)], branch_from: None, copy_files: vec![] },
            ),
        ],
    }
}

#[test]
fn diff_lines_are_told_apart() {
    assert_eq!(classify_diff_line("+++ b/x"), DiffLineKind::FileHeader);
    assert_eq!(classify_diff_line("--- a/x"), DiffLineKind::FileHeader);
    assert_eq!(classify_diff_line("Binary files differ"), DiffLineKind::FileHeader);
    assert_eq!(classify_diff_line("@@ -1 +1 @@"), DiffLineKind::Hunk);
    assert_eq!(classify_diff_line("+x"), DiffLineKind::Add);
    assert_eq!(classify_diff_line("-x"), DiffLineKind::Del);
    assert_eq!(classify_diff_line(" x"), DiffLineKind::Context);
    assert_eq!(classify_diff_line(""), DiffLineKind::Context);
    assert_eq!(shown_line(""), " ");
    assert_eq!(shown_line("x"), "x");
}

#[test]
fn changes_are_counted() {
    let text = "diff --git a/x b/x\nindex 1..2\n--- a/x\n+++ b/x\n@@ -1 +1,2 @@\n-o\n+n\n+m\n c\n";
    let v = DiffView::from_raw(RepoDiff { base_label: "main".into(), text: text.into() });
    assert_eq!((v.files, v.additions, v.deletions, v.lines.len()), (1, 2, 1, 9));
    assert_eq!(v.summary(), ("1 file".into(), "+2".into(), "−1".into()));
    assert_eq!(v.versus(), "vs main");
    let v = DiffView::from_raw(RepoDiff { base_label: "HEAD".into(), text: String::new() });
    assert_eq!(v.summary().0, "0 files");
    assert!(v.lines.is_empty());
}

#[test]
fn a_diff_is_relative_to_its_start_point() {
    let c = config();
    assert_eq!(base_ref_for(&c, "one", "a").as_deref(), Some("origin/dev"));
    assert_eq!(base_ref_for(&c, "one", "b").as_deref(), Some("origin/b"));
    assert_eq!(base_ref_for(&c, "one", "gone").as_deref(), Some("origin/dev"));
    assert_eq!(base_ref_for(&c, "two", "c").as_deref(), Some("origin/main"));
    assert_eq!(base_ref_for(&c, "gone", "c"), None);
}

#[test]
fn a_diff_is_made_once() {
    let mut s = DiffStore::new();
    assert!(s.request("w", "a", false));
    assert!(!s.request("w", "a", false));
    assert!(!s.request("w", "a", true));
    assert!(s.request("w", "b", false));
    s.finish("w".into(), "a".into(), Err("oops".into()));
    assert!(!s.request("w", "a", false));
    assert!(matches!(s.made.get("w", "a"), Some(MadeDiff::Failed(e)) if e == "oops"));
    assert!(s.request("w", "a", true));
    assert!(s.made.get("w", "a").is_none());
    s.finish("w".into(), "a".into(), Ok(RepoDiff { base_label: "m".into(), text: "+x".into() }));
    assert!(matches!(s.made.get("w", "a"), Some(MadeDiff::Shown(d)) if d.additions == 1));
    s.clear();
    assert!(s.made.get("w", "a").is_none());
    assert_eq!(shown_repo(None, 2), Some(0));
    assert_eq!(shown_repo(Some(5), 2), Some(1));
    assert_eq!(shown_repo(Some(1), 0), None);
}

fn tab(id: u64) -> TermTab {
    TermTab::new(id, "/bin/zsh")
}

fn three() -> WorkspaceTerminals {
    let mut t = WorkspaceTerminals::open(tab(10));
    t.add(tab(11));
    t.add(tab(12));
    t
}

fn ids(t: &WorkspaceTerminals) -> Vec<u64> {
    t.tabs.iter().map(|t| t.id).collect()
}

fn renaming(id: u64, buffer: &str) -> Option<Renaming> {
    Some(Renaming { id, buffer: buffer.into(), focus: false })
}

fn no_intents() -> TabIntents {
    TabIntents {
        activate: None,
        close: None,
        start_rename: None,
        commit_rename: false,
        cancel_rename: false,
    }
}

#[test]
fn tabs_have_names() {
    let mut t = three();
    assert_eq!(t.tabs[0].title, "zsh");
    assert_eq!(TermTab::new(1, "/").title, "shell");
    t.set_title(11, "vim".into());
    assert_eq!(t.tabs[1].display_name(), "vim");
    t.rename(11, " mine ");
    assert_eq!(t.tabs[1].display_name(), "mine");
    t.rename(11, " ");
    assert_eq!(t.tabs[1].display_name(), "vim");
}

#[test]
fn the_active_tab_stays_in_range() {
    let mut t = three();
    assert_eq!((ids(&t), t.active), (vec![10, 11, 12], 2));
    t.close(2);
    assert_eq!((ids(&t), t.active), (vec![10, 11], 1));
    t.close(0);
    assert_eq!((ids(&t), t.active), (vec![11], 0));
    t.close(0);
    assert!(t.tabs.is_empty());
}

#[test]
fn a_tab_is_renamed_in_place() {
    let mut t = three();
    let intents = TabIntents { start_rename: Some(11), activate: Some(0), ..no_intents() };
    let r = t.before_drawing(None, &intents).unwrap();
    assert_eq!((r.id, r.buffer.as_str(), r.focus), (11, "zsh", true));
    assert_eq!(t.active, 0);
    let intents = TabIntents { commit_rename: true, ..no_intents() };
    assert!(t.before_drawing(renaming(11, "mine"), &intents).is_none());
    assert_eq!(t.tabs[1].display_name(), "mine");
    let intents = TabIntents { cancel_rename: true, ..no_intents() };
    assert!(t.before_drawing(renaming(11, "other"), &intents).is_none());
    assert_eq!(t.tabs[1].display_name(), "mine");
}

#[test]
fn closing_a_tab_ends_its_rename() {
    let mut t = three();
    assert!(t.after_drawing(renaming(11, "x"), Some(0)).is_some());
    assert!(t.after_drawing(renaming(11, "x"), Some(0)).is_none());
    assert_eq!(ids(&t), vec![12]);
    assert!(t.after_drawing(None, Some(9)).is_none());
    assert_eq!(ids(&t), vec![12]);
}

#[test]
fn terminals_are_found_by_number() {
    let mut p = Panes::new();
    let a = p.take_id();
    let b = p.take_id();
    let c = p.take_id();
    assert_eq!((a, b, c), (0, 1, 2));
    p.set_tabs("w", WorkspaceTerminals::open(tab(a)));
    p.add_scratch(tab(b));
    p.add_scratch(tab(c));
    assert_eq!(p.scratch[1].name, "Terminal 2");
    assert!(matches!(p.selected, Some(Selection::Scratch(2))));
    p.set_title(a, "top".into());
    p.set_title(b, "vim".into());
    let at = p.tabs("w").unwrap();
    assert_eq!(p.terminals[at].1.tabs[0].title, "top");
    assert_eq!(p.scratch[0].tab.title, "vim");
    p.renaming = renaming(c, "x");
    p.remove_term_by_id(c);
    assert!(p.selected.is_none() && p.renaming.is_none());
    assert_eq!(p.scratch_position(c), None);
    assert_eq!(p.scratch_position(b), Some(0));
    p.remove_term_by_id(a);
    assert!(p.terminals[p.tabs("w").unwrap()].1.tabs.is_empty());
    assert_eq!(p.take_id(), 3);
    p.close_all();
    assert!(p.scratch.is_empty() && p.terminals.is_empty());
}

#[test]
fn the_selection_follows_what_is_there() {
    let list = vec![workspace("a", &[], vec![]), workspace("b", &[], vec![])];
    let mut p = Panes::new();
    p.reselect(&list);
    assert!(matches!(&p.selected, Some(Selection::Workspace(n)) if n == "a"));
    p.select(Selection::Workspace("b".into()));
    p.reselect(&list);
    assert_eq!(selected_workspace(&p.selected, &list), Some(1));
    p.reselect(&vec![workspace("a", &[], vec![])]);
    assert!(matches!(&p.selected, Some(Selection::Workspace(n)) if n == "a"));
    p.reselect(&vec![]);
    assert!(p.selected.is_none());
    let id = p.take_id();
    p.add_scratch(tab(id));
    p.reselect(&list);
    assert!(matches!(p.selected, Some(Selection::Scratch(0))));
    assert_eq!(selected_workspace(&p.selected, &list), None);
    assert_eq!(find_workspace(&list, "b"), Some(1));
    assert_eq!(find_workspace(&list, "c"), None);
}

fn no_actions() -> ListActions {
    ListActions {
        raise: None,
        new_scratch: false,
        close_scratch: None,
        start_rename: None,
        commit_rename: None,
        cancel_rename: false,
    }
}

#[test]
fn standalone_terminals_are_renamed_and_closed() {
    let mut p = Panes::new();
    let id = p.take_id();
    p.add_scratch(tab(id));
    p.apply_list(ListActions { start_rename: Some((id, "Terminal 1".into())), ..no_actions() });
    assert_eq!(p.renaming.as_ref().unwrap().buffer, "Terminal 1");
    p.renaming = renaming(id, "  build ");
    p.apply_list(ListActions { commit_rename: Some(id), ..no_actions() });
    assert_eq!(p.scratch[0].name, "build");
    assert!(p.renaming.is_none());
    p.renaming = renaming(id, " ");
    p.apply_list(ListActions { commit_rename: Some(id), ..no_actions() });
    assert_eq!(p.scratch[0].name, "build");
    p.renaming = renaming(id, "x");
    p.apply_list(ListActions { cancel_rename: true, ..no_actions() });
    assert!(p.renaming.is_none());
    p.apply_list(ListActions { close_scratch: Some(id), ..no_actions() });
    assert!(p.scratch.is_empty());
}

#[test]
fn keys_and_focus() {
    assert_eq!(rename_outcome(false, true), None);
    assert_eq!(rename_outcome(true, true), Some(false));
    assert_eq!(rename_outcome(true, false), Some(true));
    assert!(allow_focus(false, false));
    assert!(!allow_focus(true, false));
    assert!(!allow_focus(false, true));
    assert!(!any_modal_open(false, false, false, false, false));
    assert!(any_modal_open(false, false, false, true, false));
}

#[test]
fn one_job_runs_at_a_time() {
    let mut j = Jobs { running: None, status: None };
    j.report(false, "before".into());
    assert!(j.start("first".into()));
    assert!(j.status.is_none());
    assert!(!j.start("second".into()));
    assert!(matches!(status_bar(&j), StatusBar::Working(l) if l == "first"));
    j.finish(Ok("done".into()));
    assert!(j.running.is_none());
    match status_bar(&j) {
        StatusBar::Done { ok, mark, text } => {
            assert_eq!((ok, mark.as_str(), text.as_str()), (true, "✓", "done"))
        }
        other => panic!("{other:?}"),
    }
    j.finish(Err("oops".into()));
    assert!(matches!(status_bar(&j), StatusBar::Done { ok: false, .. }));
    j.dismiss();
    assert!(matches!(status_bar(&j), StatusBar::Hidden));
}

#[test]
fn actions_are_announced() {
    let all = [
        (PendingAction::CreateBase { name: "x".into(), paths: vec![] }, "Creating base 'x'…", "Base 'x' created"),
        (PendingAction::RemoveBase("x".into()), "Removing base 'x'…", "Base 'x' removed"),
        (
            PendingAction::CreateWorkspace { name: "x".into(), base: "b".into() },
            "Creating workspace 'x'…",
            "Workspace 'x' created",
        ),
        (
            PendingAction::CreateWorkspaceAi { prompt: "p".into(), base: None },
            "Creating workspace with AI…",
            "Workspace 'named' created",
        ),
        (PendingAction::RemoveWorkspace("x".into()), "Removing workspace 'x'…", "Workspace 'x' removed"),
    ];
    for (action, label, done) in all {
        assert_eq!(action.label(), label);
        assert_eq!(action.done("named"), done);
    }
}

#[test]
fn a_new_base_needs_a_name_and_repos() {
    let env = Environment { config_dir: None, workspace_root: None, home: Some("/home/k".into()) };
    let mut f = NewBaseForm::new();
    f.open = true;
    f.name = " x ".into();
    assert!(!f.can_create(false));
    f.add_paths(vec!["/a".into(), "/a".into(), "/b".into()]);
    f.manual_path = " ~/c ".into();
    f.add_manual(&env);
    f.manual_path = " ".into();
    f.add_manual(&env);
    assert_eq!(f.repos, vec!["/a", "/b", "/home/k/c"]);
    f.remove(0);
    f.remove(7);
    assert!(f.can_create(false) && !f.can_create(true));
    match f.submit() {
        PendingAction::CreateBase { name, paths } => {
            assert_eq!(name, "x");
            assert_eq!(paths, vec!["/b", "/home/k/c"]);
        }
        other => panic!("{other:?}"),
    }
    f.close();
    assert!(!f.open && f.name.is_empty() && f.repos.is_empty());
}

#[test]
fn editing_a_base_keeps_what_is_not_changed() {
    let c = config();
    let mut f = EditBaseForm::open_edit_base("one", c.base("one").unwrap());
    let same = f.base();
    assert_eq!(same.branch_from.as_deref(), Some("origin/dev"));
    assert_eq!(same.copy_files, vec![".env", "x"]);
    assert_eq!(same.repos.len(), 2);
    f.branch_from = "  ".into();
    assert_eq!(f.base().branch_from, None);
    f.new_copy_file = " .env ".into();
    f.add_copy_file();
    f.new_copy_file = "y".into();
    f.add_copy_file();
    f.remove_copy_file(1);
    assert_eq!(f.copy_files, vec![".env", "y"]);
    f.add_repos(vec![Ok(repo("a", None)), Err(Error::NotAGitRepo("/z".into())), Ok(repo("d", None))]);
    assert_eq!(f.error.as_deref(), Some("Path is not a git repository: /z"));
    let names: Vec<&str> = f.repos.iter().map(|r| r.name.as_str()).collect();
    assert_eq!(names, vec!["a", "b", "d"]);
    f.remove_repo(0);
    assert!(f.can_save(false) && !f.can_save(true));
    assert_eq!(f.saved(Err(Error::BaseNotFound("one".into()))), None);
    assert!(f.open);
    assert_eq!(f.error.as_deref(), Some("Base 'one' not found"));
    assert_eq!(f.saved(Ok(())).as_deref(), Some("Base 'one' updated"));
    assert!(!f.open);
}

#[test]
fn a_new_workspace_needs_a_name_without_spaces() {
    let mut f = NewWorkspaceForm::new();
    f.open_new_workspace(first_base(&config()).as_deref());
    assert_eq!(f.base.as_deref(), Some("one"));
    f.mode = NewWsMode::Manual;
    f.name = " a b ".into();
    assert!(f.complains() && !f.can_create(false));
    assert!(f.submit(false).is_none());
    f.name = " ab ".into();
    assert!(f.name_ok() && !f.complains());
    match f.submit(false) {
        Some(PendingAction::CreateWorkspace { name, base }) => {
            assert_eq!((name.as_str(), base.as_str()), ("ab", "one"))
        }
        other => panic!("{other:?}"),
    }
    assert!(f.submit(true).is_none());
    f.mode = NewWsMode::Ai;
    assert!(!f.can_ask(false));
    f.prompt = " fix ".into();
    match f.submit(false) {
        Some(PendingAction::CreateWorkspaceAi { prompt, base }) => {
            assert_eq!((prompt.as_str(), base.as_deref()), ("fix", Some("one")))
        }
        other => panic!("{other:?}"),
    }
    f.close();
    assert!(!f.open && f.base.is_none() && f.prompt.is_empty());
}

#[test]
fn removals_are_confirmed() {
    let w = RemoveTarget::Workspace("x".into());
    assert_eq!(w.title(), "Remove workspace?");
    assert!(w.question().starts_with("Remove workspace 'x'?\n\nThis removes its worktrees, deletes"));
    assert!(matches!(w.confirmed(), PendingAction::RemoveWorkspace(n) if n == "x"));
    let b = RemoveTarget::Base("y".into());
    assert_eq!(b.title(), "Remove base?");
    assert!(b.question().ends_with("Your repos and any existing workspaces are left untouched."));
    assert!(matches!(b.confirmed(), PendingAction::RemoveBase(n) if n == "y"));
}

#[test]
fn saving_keeps_the_links_that_are_checked() {
    let existing = vec![link("one", None)];
    let mut f =
        LinkForm::open_link_windows("w", true, vec![window("one"), window("two")], &existing);
    assert_eq!(f.checked, vec![true, false]);
    assert_eq!((f.save_label().as_str(), f.title().as_str()), ("Save (1)", "Link windows · w"));
    assert_eq!(f.links().len(), 1);
    f.checked[1] = true;
    assert_eq!(f.links()[1].title, "two");
    f.refresh(false, vec![window("one")], &existing);
    assert!(f.candidates.is_empty() && f.links().is_empty());
    f.close();
    assert!(!f.open && f.workspace.is_none());
    let left = unlink(&vec![link("one", None), link("two", None)], 0).unwrap();
    assert_eq!(left[0].title, "two");
    assert!(unlink(&left, 1).is_none());
}

#[test]
fn the_window_collapses_to_the_list() {
    assert_eq!(toggle_collapsed(Tab::Settings, false), (Tab::Workspaces, true));
    assert_eq!(toggle_collapsed(Tab::Workspaces, true), (Tab::Workspaces, false));
    let bar = top_bar(true);
    assert_eq!((bar.refresh.as_str(), bar.tabs), ("⟳", false));
    assert_eq!(bar.hint, "Show the terminal and details pane");
    let bar = top_bar(false);
    assert_eq!((bar.refresh.as_str(), bar.tabs), ("⟳ Refresh", true));
    assert_eq!(bar.hint, "Collapse to just the workspace list");
}

#[test]
fn what_cannot_be_read_is_told() {
    let (list, e) = take_workspaces(Err(Error::Io("x".into())));
    assert!(list.is_empty());
    assert_eq!(e.as_deref(), Some("IO error: x"));
    let (list, e) = take_workspaces(Ok(vec![workspace("a", &[], vec![])]));
    assert_eq!((list.len(), e), (1, None));
    let (c, e) = take_config(config(), Err(Error::Config("x".into())));
    assert_eq!((c.bases.len(), e.as_deref()), (2, Some("Config error: x")));
    let (c, e) = take_config(config(), Ok(Config::default()));
    assert_eq!((c.bases.len(), e), (0, None));
}

fn record(workspace: &str, state: SessionState) -> SessionRecord {
    SessionRecord {
        session_id: "s".into(),
        workspace: workspace.into(),
        cwd: "/w/a/x".into(),
        state,
        updated_at: Timestamp { secs: 1_700_000_000, nanos: 0 },
        pid: None,
    }
}

#[test]
fn the_list_shows_links_and_sessions() {
    let list = vec![workspace("a", &[], vec![link("t", None)]), workspace("b", &[], vec![])];
    let statuses = aggregate(&vec![
        record("b", SessionState::Running),
        record("b", SessionState::Running),
        record("b", SessionState::Waiting),
    ]);
    let rows = workspace_list(&helper(), &list, &Some(Selection::Workspace("b".into())), &statuses);
    assert_eq!((rows[0].label.as_str(), rows[0].selected, rows[0].state), ("⧉  a", false, None));
    assert_eq!((rows[1].label.as_str(), rows[1].selected), ("b", true));
    assert_eq!(rows[1].hover.as_deref(), Some("Helper: running (2)"));
    let s = WorkspaceStatus { running: 0, waiting: 3 };
    assert_eq!(status_hover(&helper(), SessionState::Waiting, s), "Helper: waiting for input (3)");
}

#[test]
fn pull_requests_are_asked_for_once() {
    let list = vec![workspace("a", &["r"], vec![]), workspace("b", &[], vec![])];
    let mut s = PrStore::new();
    assert!(!s.request("gone", &list));
    assert!(s.request("a", &list));
    assert!(!s.request("a", &list));
    assert!(!s.request("b", &list));
    assert_eq!(s.known.get("b").map(|v| v.len()), Some(0));
    s.finish("a".into(), vec![]);
    assert!(!s.request("a", &list));
    s.clear();
    assert!(s.request("a", &list));
}

#[test]
fn pull_requests_are_shown_as_chips() {
    let chips = pr_chips(&vec![PrInfo {
        repo: "r".into(),
        number: 12,
        state: PrState::Draft,
        url: "u".into(),
        title: "t".into(),
    }]);
    assert_eq!(chips[0].text, "#12");
    assert_eq!(chips[0].hover, "r · t (draft)");
    assert_eq!(chips[0].url, "u");
}

#[test]
fn details_tell_everything() {
    let w = workspace("a", &["r"], vec![link("", None), link("t", None)]);
    let records = vec![record("a", SessionState::Waiting), record("b", SessionState::Running)];
    let d = workspace_details(&helper(), &w, &records);
    let facts: Vec<String> = d.facts.iter().map(|(k, v)| format!("{k}={v}")).collect();
    assert_eq!(
        facts,
        vec!["Base=one", "Branch=a", "Created=2023-11-14 22:13 UTC", "Path=/w/a"]
    );
    assert_eq!(d.sessions_title, "Helper sessions (1)");
    assert_eq!(d.sessions[0].label, "waiting for input");
    assert_eq!(d.sessions[0].updated, "· updated 22:13:20 UTC");
    assert_eq!(d.repos_title, "Repos (1)");
    assert_eq!(d.links_title, "Linked windows (2)");
    assert_eq!(d.links[0].1, "(untitled)");
    assert_eq!(shown_title("t"), "t");
}

#[test]
fn settings_show_what_is_inherited() {
    let cards = settings_cards(&config());
    assert_eq!((cards[0].name.as_str(), cards[0].size.as_str()), ("one", "· 2 repo(s)"));
    assert_eq!(cards[0].branch_from, "origin/dev");
    assert_eq!(cards[0].copy_files.as_deref(), Some(".env, x"));
    assert_eq!(cards[0].repos[1].name, "b:");
    assert_eq!(cards[0].repos[1].from.as_deref(), Some("[from origin/b]"));
    assert_eq!(cards[1].branch_from, "origin/main (inherited)");
    assert_eq!(cards[1].copy_files, None);
    assert_eq!(first_base(&Config::default()), None);
}

#[test]
fn windows_are_spoken_of() {
    let report = RaiseReport { raised: 1, unresolved: vec!["A — t".into(), "B — u".into()] };
    assert_eq!(
        raise_message(&report).as_deref(),
        Some("Raised 1 window(s); couldn't find: A — t, B — u")
    );
    assert_eq!(raise_message(&RaiseReport { raised: 2, unresolved: vec![] }), None);
    let ctx = link_context(&workspace("a", &["r", "s"], vec![]));
    assert_eq!(ctx.path, "/w/a");
    assert_eq!(ctx.repo_paths, vec!["/w/a/r", "/src/r", "/w/a/s", "/src/s"]);
    assert_eq!(auto_link_label("a"), "🤖 Auto-linking windows for 'a'…");
    assert_eq!(auto_link_done(&helper(), 2, "a", true), "Linked 2 window(s) to 'a'");
    assert_eq!(
        auto_link_done(&helper(), 2, "a", false),
        "Linked 2 window(s) to 'a' (Helper unavailable; matched by directory)"
    );
    assert_eq!(links_saved("a"), "Updated linked windows for 'a'");
}
