//! Windows: which there are, and which a link means.
use cutter::window_manager::{
    accessibility_trusted, ax_window_id, best_window, cg_apps_front_to_back, cg_name_to_pids,
    display_for_space, document_attr, documents_conflict, follow_space, label_of_link,
    list_windows, match_score, open_accessibility_settings, raise_order, raise_windows,
    window_owners, AppWindows, AxWindow, CgWindow, DisplaySpaces, RaiseReport, WindowInfo,
};
use cutter::workspace::LinkedWindow;

fn link(app: &str, title: &str, doc: Option<&str>, id: Option<u32>) -> LinkedWindow {
    LinkedWindow {
        app_name: app.into(),
        title: title.into(),
        document_path: doc.map(|s| s.into()),
        window_id: id,
    }
}

fn ax(title: &str, doc: Option<&str>, id: Option<u32>) -> AxWindow {
    AxWindow { title: title.into(), document_path: doc.map(|s| s.into()), window_id: id }
}

#[test]
fn a_window_matches_its_own_link() {
    let w = WindowInfo {
        pid: 3,
        app_name: "Xcode".into(),
        title: "App".into(),
        document_path: Some("/x".into()),
        window_id: Some(7),
    };
    let l = w.to_link();
    assert!(w.matches(&l));
    assert_eq!(l.window_id, Some(7));
    assert!(w.matches(&link("Other", "Title", None, Some(7))));
    assert!(w.matches(&link("Xcode", "App", Some("/x"), Some(8))));
    assert!(!w.matches(&link("Xcode", "App", None, Some(8))));
    assert!(!w.matches(&link("Xcode", "app", Some("/x"), None)));
}

#[test]
fn scores_prefer_the_stronger_sign() {
    let l = link("Xcode", "App", Some("/x"), Some(7));
    assert_eq!(match_score(&l, &ax("?", None, Some(7))), 4);
    // An id that now shows another document is stale.
    assert_eq!(match_score(&l, &ax("?", Some("/y"), Some(7))), 0);
    assert_eq!(match_score(&l, &ax("?", Some("/x"), Some(8))), 3);
    assert_eq!(match_score(&l, &ax("App", Some("/y"), None)), 2);
    assert_eq!(match_score(&l, &ax("App — main.swift", None, None)), 1);
    assert_eq!(match_score(&l, &ax("Ap", None, None)), 1);
    assert_eq!(match_score(&l, &ax("", None, None)), 0);
    assert_eq!(match_score(&link("Xcode", "", None, None), &ax("", None, None)), 0);
    assert!(documents_conflict(&Some("/a".into()), &Some("/b".into())));
    assert!(!documents_conflict(&None, &Some("/b".into())));
}

#[test]
fn the_first_of_the_best_windows_is_taken() {
    let l = link("Xcode", "App", None, None);
    let list = vec![ax("Apple", None, None), ax("App", None, None), ax("App", None, Some(1))];
    assert_eq!(best_window(&l, &list), Some(1));
    assert_eq!(best_window(&l, &vec![ax("Other", None, None)]), None);
    assert_eq!(best_window(&l, &vec![]), None);
}

#[test]
fn only_normal_windows_count() {
    let w = |layer: Option<i64>, pid: Option<i64>, name: Option<&str>| CgWindow {
        layer,
        pid,
        name: name.map(|s| s.into()),
    };
    let list = vec![
        w(Some(0), Some(5), Some("A")),
        w(Some(25), Some(6), Some("Menu")),
        w(None, Some(6), Some("Menu")),
        w(Some(0), None, Some("B")),
        w(Some(0), Some(7), None),
        w(Some(0), Some(5), Some("A")),
        w(Some(0), Some(8), Some("A")),
    ];
    let owners = window_owners(&list);
    assert_eq!(
        owners,
        vec![(5, "A".to_string()), (7, String::new()), (5, "A".to_string()), (8, "A".to_string())]
    );
    assert_eq!(cg_apps_front_to_back(&owners, 7), vec![(5, "A".to_string()), (8, "A".to_string())]);
    assert_eq!(cg_name_to_pids(&owners, 7, "A"), vec![5, 8]);
    assert_eq!(cg_name_to_pids(&owners, 5, "A"), vec![8]);
    assert!(cg_name_to_pids(&owners, 7, "B").is_empty());
}

#[test]
fn windows_without_a_name_are_not_listed() {
    let apps = vec![
        AppWindows {
            pid: 1,
            app_name: "A".into(),
            windows: vec![ax(" ", None, None), ax("t", None, Some(2)), ax("", Some("/d"), None)],
        },
        AppWindows { pid: 2, app_name: "B".into(), windows: vec![ax("u", None, None)] },
    ];
    let list = list_windows(&apps);
    let titles: Vec<(i32, &str)> = list.iter().map(|w| (w.pid, w.title.as_str())).collect();
    assert_eq!(titles, vec![(1, "t"), (1, ""), (2, "u")]);
    assert_eq!(list[0].window_id, Some(2));
    assert_eq!(list[1].document_path.as_deref(), Some("/d"));
}

#[test]
fn attributes_that_say_nothing_are_none() {
    assert_eq!(document_attr(Some(String::new())), None);
    assert_eq!(document_attr(Some("/d".into())).as_deref(), Some("/d"));
    assert_eq!(document_attr(None), None);
    assert_eq!(ax_window_id(true, 4), Some(4));
    assert_eq!(ax_window_id(true, 0), None);
    assert_eq!(ax_window_id(false, 4), None);
    assert!(!accessibility_trusted(None));
    assert!(accessibility_trusted(Some(true)));
}

#[test]
fn links_are_raised_from_the_last_to_the_first() {
    assert_eq!(raise_order(3), vec![2, 1, 0]);
    let links = vec![
        link("A", "one", None, None),
        link("B", "", None, None),
        link("C", "three", None, None),
    ];
    let report = raise_windows(&links, &vec![true, false, false]);
    assert_eq!(report.raised, 1);
    assert_eq!(report.unresolved, vec!["B — (untitled)", "C — three"]);
    assert_eq!(label_of_link(&links[0]), "A — one");
    let none = RaiseReport::default();
    assert_eq!((none.raised, none.unresolved.len()), (0, 0));
}

#[test]
fn a_space_is_shown_once() {
    let displays = vec![
        DisplaySpaces { identifier: Some("one".into()), spaces: vec![1, 2] },
        DisplaySpaces { identifier: None, spaces: vec![3] },
        DisplaySpaces { identifier: Some("two".into()), spaces: vec![3, 4] },
    ];
    assert_eq!(display_for_space(&displays, 2).as_deref(), Some("one"));
    assert_eq!(display_for_space(&displays, 4).as_deref(), Some("two"));
    // The first display that has the space decides, though it has no name.
    assert_eq!(display_for_space(&displays, 3), None);
    assert_eq!(display_for_space(&displays, 9), None);

    let s = follow_space(Some(2), None, Some(1));
    assert_eq!((s.show, s.last), (Some(2), Some(2)));
    let s = follow_space(Some(2), Some(2), Some(1));
    assert_eq!((s.show, s.last), (None, Some(2)));
    let s = follow_space(Some(2), Some(1), Some(2));
    assert_eq!((s.show, s.last), (None, Some(2)));
    let s = follow_space(Some(2), Some(1), None);
    assert_eq!((s.show, s.last), (None, Some(1)));
    let s = follow_space(None, Some(1), Some(1));
    assert_eq!((s.show, s.last), (None, Some(1)));
}

#[test]
fn the_settings_are_opened_at_the_right_place() {
    assert_eq!(
        open_accessibility_settings().join(" "),
        "open x-apple.systempreferences:com.apple.preference.security?Privacy_Accessibility"
    );
}
