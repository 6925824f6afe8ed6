//! Linking windows to workspaces.
use cutter::ai_link::{
    build_prompt, doc_in_workspace, line_with, parse_picks, same_window, suggest, WsContext,
};
use cutter::window_manager::WindowInfo;
use cutter::workspace::LinkedWindow;

fn win(app: &str, title: &str, doc: Option<&str>) -> WindowInfo {
    WindowInfo {
        pid: 1,
        app_name: app.to_string(),
        title: title.to_string(),
        document_path: doc.map(|s| s.to_string()),
        window_id: None,
    }
}

fn link(app: &str, title: &str, doc: Option<&str>, id: Option<u32>) -> LinkedWindow {
    LinkedWindow {
        app_name: app.to_string(),
        title: title.to_string(),
        document_path: doc.map(|s| s.to_string()),
        window_id: id,
    }
}

#[test]
fn parses_link_line() {
    assert_eq!(parse_picks("LINK: 0, 2, 5", 6), vec![0, 2, 5]);
    // Prose around it, extra whitespace, out-of-range and dupes filtered.
    assert_eq!(parse_picks("Here you go:\nLINK: 1 1 3 9\n", 5), vec![1, 3]);
    // Case-insensitive, and empty means none.
    assert_eq!(parse_picks("link:", 5), Vec::<usize>::new());
    // No LINK line, nothing.
    assert_eq!(parse_picks("I think windows 0 and 1", 5), Vec::<usize>::new());
}

#[test]
fn picks_come_from_the_first_marked_line() {
    assert_eq!(parse_picks("Link: 4,2\nLINK: 1", 5), vec![4, 2]);
    assert_eq!(parse_picks("so LiNk:1,x,+3", 5), vec![1, 3]);
    assert_eq!(parse_picks("LINK: 99999999999999999999999 1", 5), vec![1]);
}

#[test]
fn directory_match() {
    let ctx = WsContext {
        name: "feat".into(),
        path: "/Users/k/cutter/feat".into(),
        repo_paths: vec!["/Users/k/src/frontend".into()],
    };
    // Open file inside the workspace dir.
    assert!(doc_in_workspace(
        &win("Xcode", "App", Some("/Users/k/cutter/feat/frontend/App.xcodeproj")),
        &ctx
    ));
    // Open file inside a repo source dir.
    assert!(doc_in_workspace(
        &win("Xcode", "App", Some("/Users/k/src/frontend/App.xcodeproj")),
        &ctx
    ));
    // Unrelated file.
    assert!(!doc_in_workspace(
        &win("Xcode", "Other", Some("/Users/k/elsewhere/App.xcodeproj")),
        &ctx
    ));
    // No open document.
    assert!(!doc_in_workspace(&win("Chrome", "feat docs", None), &ctx));
    // Component-wise prefix: /cutter/feat must not match /cutter/feature.
    assert!(!doc_in_workspace(
        &win("Xcode", "App", Some("/Users/k/cutter/feature/App")),
        &ctx
    ));
}

#[test]
fn suggest_includes_dir_matches_when_claude_absent() {
    let ctx = WsContext {
        name: "feat".into(),
        path: "/Users/k/cutter/feat".into(),
        repo_paths: vec![],
    };
    let windows = vec![
        win("Xcode", "App", Some("/Users/k/cutter/feat/App.xcodeproj")),
        win("Music", "Some Song", None),
    ];
    let s = suggest(&ctx, &windows, &vec![], None);
    assert!(!s.claude_ok);
    assert_eq!(s.links.len(), 1);
    assert_eq!(s.links[0].app_name, "Xcode");
}

#[test]
fn suggest_keeps_links_and_adds_picks_once() {
    let ctx = WsContext { name: "feat".into(), path: "/w/feat".into(), repo_paths: vec![] };
    let windows = vec![
        win("Xcode", "App", Some("/w/feat/App")),
        win("Safari", "ENG-1", None),
        win("Music", "Song", None),
    ];
    let existing = vec![link("Xcode", "App", Some("/w/feat/App"), None), link("Mail", "Inbox", None, None)];
    let s = suggest(&ctx, &windows, &existing, Some("LINK: 1"));
    assert!(s.claude_ok);
    let names: Vec<&str> = s.links.iter().map(|l| l.app_name.as_str()).collect();
    assert_eq!(names, vec!["Xcode", "Mail", "Safari"]);
    // The same answer on what came of it adds nothing.
    let again = suggest(&ctx, &windows, &s.links, Some("LINK: 1"));
    let names: Vec<&str> = again.links.iter().map(|l| l.app_name.as_str()).collect();
    assert_eq!(names, vec!["Xcode", "Mail", "Safari"]);
}

#[test]
fn windows_are_the_same_by_id_or_by_everything() {
    let a = link("Xcode", "A", None, Some(7));
    assert!(same_window(&a, &link("Xcode", "B", Some("/x"), Some(7))));
    assert!(!same_window(&a, &link("Xcode", "B", None, Some(8))));
    assert!(same_window(&a, &link("Xcode", "A", None, None)));
    assert!(!same_window(&a, &link("Xcode", "A", Some("/x"), None)));
}

#[test]
fn question_lists_the_windows() {
    let ctx = WsContext {
        name: "feat".into(),
        path: "/w/feat".into(),
        repo_paths: vec!["/w/feat/api".into()],
    };
    let windows = vec![win("Xcode", "say \"hi\"", Some("/w/feat/a b")), win("Music", "  ", None)];
    let q = build_prompt(&ctx, &windows);
    assert!(q.starts_with("You are helping link open macOS windows"));
    assert!(q.contains(
        "Workspace name: feat\nWorkspace directory: /w/feat\nRepository directories:\n  - /w/feat/api\n\nOpen windows (index, app, title, and open file if any):\n"
    ));
    assert!(q.contains("[0] app=\"Xcode\" title=\"say \\\"hi\\\"\" file=\"/w/feat/a b\"\n"));
    assert!(q.contains("[1] app=\"Music\" title=\"(untitled)\"\n"));
    assert!(q.ends_with("respond with 'LINK:' and nothing after it.\n"));
    assert!(q.contains("or its clear topic likely belongs (e.g. a browser tab"));
}

#[test]
fn question_lines_have_an_exact_form() {
    assert_eq!(line_with(3, "'a'", "'b'", None), "[3] app='a' title='b'\n");
    assert_eq!(
        line_with(12, "'a'", "'b'", Some("'c'".to_string())),
        "[12] app='a' title='b' file='c'\n"
    );
}
