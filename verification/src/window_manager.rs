//! Windows of other applications: which belong to a workspace, and which of them
//! is meant by a link.
//!
//! A window has no handle that lasts, so it is known by what stays: the name of
//! its application, its title, and the document that it has open.
use vstd::prelude::*;

use crate::text::{cat3, chars_of, own, own_all, same, starts_with, trim, trimmed};
use crate::workspace::{LinkedWindow, LinkedWindowView};

verus! {

/// A window that is open.
#[derive(Debug)]
pub struct WindowInfo {
    pub pid: i32,
    pub app_name: String,
    pub title: String,
    pub document_path: Option<String>,
    /// The id of the window, where it is known.
    pub window_id: Option<u32>,
}

/// What a [`WindowInfo`] stands for.
#[verifier::ext_equal]
pub struct WindowInfoView {
    pub pid: i32,
    pub app_name: Seq<char>,
    pub title: Seq<char>,
    pub document_path: Option<Seq<char>>,
    pub window_id: Option<u32>,
}

impl DeepView for WindowInfo {
    type V = WindowInfoView;

    open spec fn deep_view(&self) -> WindowInfoView {
        WindowInfoView {
            pid: self.pid,
            app_name: self.app_name@,
            title: self.title@,
            document_path: self.document_path.deep_view(),
            window_id: self.window_id,
        }
    }
}

impl Clone for WindowInfo {
    fn clone(&self) -> (r: Self)
        ensures
            r.deep_view() == self.deep_view(),
    {
        WindowInfo {
            pid: self.pid,
            app_name: self.app_name.clone(),
            title: self.title.clone(),
            document_path: self.document_path.clone(),
            window_id: self.window_id,
        }
    }
}

/// Whether two optional texts are the same.
pub fn same_option(a: &Option<String>, b: &Option<String>) -> (r: bool)
    ensures
        r == (a.deep_view() == b.deep_view()),
{
    match (a, b) {
        (Some(x), Some(y)) => same(x.as_str(), y.as_str()),
        (None, None) => true,
        _ => false,
    }
}

/// Both ids are known, and they are the same.
pub open spec fn same_id(a: Option<u32>, b: Option<u32>) -> bool {
    a is Some && a == b
}

fn ids_agree(a: Option<u32>, b: Option<u32>) -> (r: bool)
    ensures
        r == same_id(a, b),
{
    match (a, b) {
        (Some(x), Some(y)) => x == y,
        _ => false,
    }
}

impl WindowInfoView {
    /// What a link to the window holds.
    pub open spec fn link(self) -> LinkedWindowView {
        LinkedWindowView {
            app_name: self.app_name,
            title: self.title,
            document_path: self.document_path,
            window_id: self.window_id,
        }
    }
}

/// Whether two links mean the same window: by its id, or else by everything
/// else.
pub open spec fn same_target(a: LinkedWindowView, b: LinkedWindowView) -> bool {
    same_id(a.window_id, b.window_id) || (a.app_name == b.app_name && a.title == b.title
        && a.document_path == b.document_path)
}

impl WindowInfo {
    /// Whether this is the window that a link means. The id decides where it is
    /// the same: it survives a change of title. Else everything else has to be.
    pub fn matches(&self, link: &LinkedWindow) -> (r: bool)
        ensures
            r == same_target(self.deep_view().link(), link.deep_view()),
    {
        ids_agree(self.window_id, link.window_id) || (same(
            self.app_name.as_str(),
            link.app_name.as_str(),
        ) && same(self.title.as_str(), link.title.as_str()) && same_option(
            &self.document_path,
            &link.document_path,
        ))
    }

    /// A link to the window.
    pub fn to_link(&self) -> (r: LinkedWindow)
        ensures
            r.deep_view() == self.deep_view().link(),
    {
        LinkedWindow {
            app_name: self.app_name.clone(),
            title: self.title.clone(),
            document_path: self.document_path.clone(),
            window_id: self.window_id,
        }
    }
}

/// A window is the one that its own link means.
pub proof fn own_link_matches(w: WindowInfoView)
    ensures
        same_target(w.link(), w.link()),
{
}

// ---------------------------------------------------------------------------
// What the system says
// ---------------------------------------------------------------------------

/// Whether other applications' windows may be looked at: where the system cannot
/// say, they may not.
pub fn accessibility_trusted(answer: Option<bool>) -> (r: bool)
    ensures
        r == (answer == Some(true)),
{
    match answer {
        Some(b) => b,
        None => false,
    }
}

/// The command that shows the settings where this is allowed.
pub fn open_accessibility_settings() -> (r: Vec<String>)
    ensures
        r.deep_view() == seq![
            "open"@,
            "x-apple.systempreferences:com.apple.preference.security?Privacy_Accessibility"@,
        ],
{
    let v = vec![
        "open",
        "x-apple.systempreferences:com.apple.preference.security?Privacy_Accessibility",
    ];
    assert(v.deep_view() =~= seq![
        "open"@,
        "x-apple.systempreferences:com.apple.preference.security?Privacy_Accessibility"@,
    ]);
    own_all(&v)
}

/// An entry of the system's list of windows.
#[derive(Debug)]
pub struct CgWindow {
    pub layer: Option<i64>,
    pub pid: Option<i64>,
    pub name: Option<String>,
}

/// What a [`CgWindow`] stands for.
pub struct CgWindowView {
    pub layer: Option<i64>,
    pub pid: Option<i64>,
    pub name: Option<Seq<char>>,
}

impl DeepView for CgWindow {
    type V = CgWindowView;

    open spec fn deep_view(&self) -> CgWindowView {
        CgWindowView { layer: self.layer, pid: self.pid, name: self.name.deep_view() }
    }
}

/// Whether an entry is that of an ordinary window, whose process is known.
pub open spec fn is_normal(w: CgWindowView) -> bool {
    w.layer == Some(0i64) && w.pid is Some
}

/// The process of an entry, and its name.
pub open spec fn owner(w: CgWindowView) -> (i32, Seq<char>) {
    (
        w.pid->0 as i32,
        match w.name {
            Some(n) => n,
            None => Seq::empty(),
        },
    )
}

/// The owners of the ordinary windows, in order.
pub open spec fn owners(list: Seq<CgWindowView>) -> Seq<(i32, Seq<char>)>
    decreases list.len(),
{
    if list.len() == 0 {
        Seq::empty()
    } else if is_normal(list.last()) {
        owners(list.drop_last()).push(owner(list.last()))
    } else {
        owners(list.drop_last())
    }
}

/// The owners of the ordinary windows, in order: process and name.
pub fn window_owners(list: &Vec<CgWindow>) -> (r: Vec<(i32, String)>)
    ensures
        r.deep_view() == owners(list.deep_view()),
{
    let ghost v = list.deep_view();
    let mut out: Vec<(i32, String)> = Vec::new();
    assert(out.deep_view() =~= owners(v.take(0)));
    for i in 0..list.len()
        invariant
            v == list.deep_view(),
            out.deep_view() == owners(v.take(i as int)),
    {
        let w = &list[i];
        proof {
            assert(v.take(i + 1).drop_last() =~= v.take(i as int));
            assert(v.take(i + 1).last() == w.deep_view());
        }
        let normal = match w.layer {
            Some(l) => l == 0,
            None => false,
        };
        if normal {
            if let Some(pid) = w.pid {
                let name = match &w.name {
                    Some(n) => n.clone(),
                    None => String::new(),
                };
                let ghost g = out.deep_view();
                let ghost x = (#[verifier::truncate] (pid as i32), name@);
                assert(x.1 =~= owner(w.deep_view()).1);
                out.push((#[verifier::truncate] (pid as i32), name));
                assert(out.deep_view() =~= g.push(owner(w.deep_view())));
            }
        }
    }
    assert(v.take(v.len() as int) =~= v);
    out
}

/// Whether a process is among the owners.
pub open spec fn owned_by(list: Seq<(i32, Seq<char>)>, pid: i32) -> bool {
    exists|i: int| 0 <= i < list.len() && (#[trigger] list[i]).0 == pid
}

/// The applications from front to back: each process where it appears first,
/// this one left out.
pub open spec fn front_to_back(list: Seq<(i32, Seq<char>)>, self_pid: i32) -> Seq<
    (i32, Seq<char>),
>
    decreases list.len(),
{
    if list.len() == 0 {
        Seq::empty()
    } else {
        let rest = front_to_back(list.drop_last(), self_pid);
        let x = list.last();
        if x.0 != self_pid && !owned_by(rest, x.0) {
            rest.push(x)
        } else {
            rest
        }
    }
}

/// The applications from front to back: each process where it appears first,
/// this one left out.
pub fn cg_apps_front_to_back(list: &Vec<(i32, String)>, self_pid: i32) -> (r: Vec<(i32, String)>)
    ensures
        r.deep_view() == front_to_back(list.deep_view(), self_pid),
{
    let ghost v = list.deep_view();
    let mut out: Vec<(i32, String)> = Vec::new();
    assert(out.deep_view() =~= front_to_back(v.take(0), self_pid));
    for i in 0..list.len()
        invariant
            v == list.deep_view(),
            out.deep_view() == front_to_back(v.take(i as int), self_pid),
    {
        proof {
            assert(v.take(i + 1).drop_last() =~= v.take(i as int));
            assert(v.take(i + 1).last() == (list@[i as int].0, list@[i as int].1@));
        }
        let pid = list[i].0;
        let ghost g = out.deep_view();
        let mut seen = false;
        for k in 0..out.len()
            invariant
                g == out.deep_view(),
                seen == (exists|j: int| 0 <= j < k && (#[trigger] g[j]).0 == pid),
        {
            assert(g[k as int].0 == out@[k as int].0);
            if out[k].0 == pid {
                seen = true;
            }
        }
        assert(seen == owned_by(g, pid));
        if pid != self_pid && !seen {
            out.push((pid, list[i].1.clone()));
            assert(out.deep_view() =~= g.push((pid, list@[i as int].1@)));
        }
    }
    assert(v.take(v.len() as int) =~= v);
    out
}

/// The processes of the application `name`, each where it appears first, this
/// one left out.
pub open spec fn pids(list: Seq<(i32, Seq<char>)>, self_pid: i32, name: Seq<char>) -> Seq<i32>
    decreases list.len(),
{
    if list.len() == 0 {
        Seq::empty()
    } else {
        let rest = pids(list.drop_last(), self_pid, name);
        let x = list.last();
        if x.0 != self_pid && x.1 == name && !rest.contains(x.0) {
            rest.push(x.0)
        } else {
            rest
        }
    }
}

/// The processes of the application `name`: an application can have several.
pub fn cg_name_to_pids(list: &Vec<(i32, String)>, self_pid: i32, name: &str) -> (r: Vec<i32>)
    ensures
        r@ == pids(list.deep_view(), self_pid, name@),
{
    let ghost v = list.deep_view();
    let mut out: Vec<i32> = Vec::new();
    assert(out@ =~= pids(v.take(0), self_pid, name@));
    for i in 0..list.len()
        invariant
            v == list.deep_view(),
            out@ == pids(v.take(i as int), self_pid, name@),
    {
        proof {
            assert(v.take(i + 1).drop_last() =~= v.take(i as int));
            assert(v.take(i + 1).last() == (list@[i as int].0, list@[i as int].1@));
        }
        let pid = list[i].0;
        if pid != self_pid && same(list[i].1.as_str(), name) {
            let mut seen = false;
            for k in 0..out.len()
                invariant
                    seen == (exists|j: int| 0 <= j < k && #[trigger] out@[j] == pid),
            {
                if out[k] == pid {
                    seen = true;
                }
            }
            assert(seen == out@.contains(pid));
            if !seen {
                out.push(pid);
            }
        }
    }
    assert(v.take(v.len() as int) =~= v);
    out
}

/// A window as its application describes it.
#[derive(Debug)]
pub struct AxWindow {
    pub title: String,
    pub document_path: Option<String>,
    pub window_id: Option<u32>,
}

/// What an [`AxWindow`] stands for.
#[verifier::ext_equal]
pub struct AxWindowView {
    pub title: Seq<char>,
    pub document_path: Option<Seq<char>>,
    pub window_id: Option<u32>,
}

impl DeepView for AxWindow {
    type V = AxWindowView;

    open spec fn deep_view(&self) -> AxWindowView {
        AxWindowView {
            title: self.title@,
            document_path: self.document_path.deep_view(),
            window_id: self.window_id,
        }
    }
}

/// The document of a window: an empty one is none.
pub fn document_attr(value: Option<String>) -> (r: Option<String>)
    ensures
        r.deep_view() == (match value.deep_view() {
            Some(s) => if s.len() > 0 {
                Some(s)
            } else {
                None
            },
            None => None,
        }),
{
    match value {
        Some(s) => {
            let cs = chars_of(s.as_str());
            if cs.len() > 0 {
                Some(s)
            } else {
                None
            }
        },
        None => None,
    }
}

/// The id of a window, where the system gave one: 0 is none.
pub fn ax_window_id(found: bool, id: u32) -> (r: Option<u32>)
    ensures
        r == (if found && id != 0 {
            Some(id)
        } else {
            None
        }),
{
    if found && id != 0 {
        Some(id)
    } else {
        None
    }
}

/// An application with its windows.
#[derive(Debug)]
pub struct AppWindows {
    pub pid: i32,
    pub app_name: String,
    pub windows: Vec<AxWindow>,
}

/// What an [`AppWindows`] stands for.
#[verifier::ext_equal]
pub struct AppWindowsView {
    pub pid: i32,
    pub app_name: Seq<char>,
    pub windows: Seq<AxWindowView>,
}

impl DeepView for AppWindows {
    type V = AppWindowsView;

    open spec fn deep_view(&self) -> AppWindowsView {
        AppWindowsView {
            pid: self.pid,
            app_name: self.app_name@,
            windows: self.windows.deep_view(),
        }
    }
}

/// Whether a window is offered: one with neither a title nor a document is no
/// window of its own.
pub open spec fn is_linkable(w: AxWindowView) -> bool {
    trimmed(w.title).len() > 0 || w.document_path is Some
}

/// A window with the application that it belongs to.
pub open spec fn window_of(pid: i32, app_name: Seq<char>, w: AxWindowView) -> WindowInfoView {
    WindowInfoView {
        pid,
        app_name,
        title: w.title,
        document_path: w.document_path,
        window_id: w.window_id,
    }
}

/// The windows of an application that are offered.
pub open spec fn linkable(pid: i32, app_name: Seq<char>, list: Seq<AxWindowView>) -> Seq<
    WindowInfoView,
>
    decreases list.len(),
{
    if list.len() == 0 {
        Seq::empty()
    } else if is_linkable(list.last()) {
        linkable(pid, app_name, list.drop_last()).push(window_of(pid, app_name, list.last()))
    } else {
        linkable(pid, app_name, list.drop_last())
    }
}

/// The windows of all the applications that are offered.
pub open spec fn all_linkable(apps: Seq<AppWindowsView>) -> Seq<WindowInfoView>
    decreases apps.len(),
{
    if apps.len() == 0 {
        Seq::empty()
    } else {
        all_linkable(apps.drop_last()) + linkable(
            apps.last().pid,
            apps.last().app_name,
            apps.last().windows,
        )
    }
}

/// The windows that can be linked, in the order of their applications.
pub fn list_windows(apps: &Vec<AppWindows>) -> (r: Vec<WindowInfo>)
    ensures
        r.deep_view() == all_linkable(apps.deep_view()),
{
    let ghost v = apps.deep_view();
    let mut out: Vec<WindowInfo> = Vec::new();
    assert(out.deep_view() =~= all_linkable(v.take(0)));
    for i in 0..apps.len()
        invariant
            v == apps.deep_view(),
            out.deep_view() == all_linkable(v.take(i as int)),
    {
        let app = &apps[i];
        let ghost g = out.deep_view();
        let ghost a = app.deep_view();
        proof {
            assert(v.take(i + 1).drop_last() =~= v.take(i as int));
            assert(v.take(i + 1).last() == a);
            assert(g + linkable(a.pid, a.app_name, a.windows.take(0)) =~= g);
        }
        for k in 0..app.windows.len()
            invariant
                a == app.deep_view(),
                out.deep_view() == g + linkable(a.pid, a.app_name, a.windows.take(k as int)),
        {
            let w = &app.windows[k];
            proof {
                assert(a.windows.take(k + 1).drop_last() =~= a.windows.take(k as int));
                assert(a.windows.take(k + 1).last() == w.deep_view());
            }
            let t = trim(w.title.as_str());
            let cs = chars_of(t.as_str());
            if cs.len() > 0 || w.document_path.is_some() {
                let ghost here = out.deep_view();
                out.push(
                    WindowInfo {
                        pid: app.pid,
                        app_name: app.app_name.clone(),
                        title: w.title.clone(),
                        document_path: w.document_path.clone(),
                        window_id: w.window_id,
                    },
                );
                assert(out.deep_view() =~= here.push(window_of(a.pid, a.app_name, w.deep_view())));
                assert(out.deep_view() =~= g + linkable(
                    a.pid,
                    a.app_name,
                    a.windows.take(k + 1),
                ));
            }
        }
        assert(a.windows.take(a.windows.len() as int) =~= a.windows);
    }
    assert(v.take(v.len() as int) =~= v);
    out
}

// ---------------------------------------------------------------------------
// Raising
// ---------------------------------------------------------------------------

/// Whether two documents are both there and different.
pub open spec fn conflict(a: Option<Seq<char>>, b: Option<Seq<char>>) -> bool {
    a is Some && b is Some && a != b
}

/// Whether two documents are both there and different.
pub fn documents_conflict(a: &Option<String>, b: &Option<String>) -> (r: bool)
    ensures
        r == conflict(a.deep_view(), b.deep_view()),
{
    a.is_some() && b.is_some() && !same_option(a, b)
}

/// How well a window fits a link: 4 by its id, 3 by its document, 2 by its title,
/// 1 where one title begins with the other, 0 not at all. An id does not count
/// where the documents are at odds: it may have passed to another window.
pub open spec fn score(link: LinkedWindowView, w: AxWindowView) -> u32 {
    if same_id(link.window_id, w.window_id) && !conflict(link.document_path, w.document_path) {
        4
    } else if link.document_path is Some && link.document_path == w.document_path {
        3
    } else if link.title.len() > 0 && link.title == w.title {
        2
    } else if link.title.len() > 0 && w.title.len() > 0 && (link.title.is_prefix_of(w.title)
        || w.title.is_prefix_of(link.title)) {
        1
    } else {
        0
    }
}

/// The id of a link may have passed to a window that shows another document: a
/// window that shows the right one fits better.
pub proof fn document_beats_stale_id(
    link: LinkedWindowView,
    stale: AxWindowView,
    right: AxWindowView,
)
    requires
        link.document_path is Some,
        conflict(link.document_path, stale.document_path),
        right.document_path == link.document_path,
    ensures
        score(link, right) > score(link, stale),
{
}

/// How well a window fits a link.
pub fn match_score(link: &LinkedWindow, w: &AxWindow) -> (r: u32)
    ensures
        r == score(link.deep_view(), w.deep_view()),
{
    if ids_agree(link.window_id, w.window_id) && !documents_conflict(
        &link.document_path,
        &w.document_path,
    ) {
        return 4;
    }
    if link.document_path.is_some() && same_option(&link.document_path, &w.document_path) {
        return 3;
    }
    let want = chars_of(link.title.as_str());
    let have = chars_of(w.title.as_str());
    if want.len() > 0 {
        if same(link.title.as_str(), w.title.as_str()) {
            return 2;
        }
        if have.len() > 0 && (starts_with(w.title.as_str(), link.title.as_str()) || starts_with(
            link.title.as_str(),
            w.title.as_str(),
        )) {
            return 1;
        }
    }
    0
}

/// Whether the window at `i` is the one that a link means: it fits, none fits
/// better, and none before it fits as well.
pub open spec fn is_best(link: LinkedWindowView, list: Seq<AxWindowView>, i: int) -> bool {
    &&& 0 <= i < list.len()
    &&& score(link, list[i]) > 0
    &&& forall|j: int|
        0 <= j < list.len() ==> score(link, #[trigger] list[j]) < score(link, list[i]) || (score(
            link,
            list[j],
        ) == score(link, list[i]) && i <= j)
}

/// The window of an application that a link means, if one fits.
pub fn best_window(link: &LinkedWindow, list: &Vec<AxWindow>) -> (r: Option<usize>)
    ensures
        match r {
            Some(i) => is_best(link.deep_view(), list.deep_view(), i as int),
            None => forall|j: int|
                0 <= j < list.deep_view().len() ==> score(
                    link.deep_view(),
                    #[trigger] list.deep_view()[j],
                ) == 0,
        },
{
    let ghost l = link.deep_view();
    let ghost v = list.deep_view();
    let mut best: Option<usize> = None;
    let mut best_score: u32 = 0;
    for i in 0..list.len()
        invariant
            l == link.deep_view(),
            v == list.deep_view(),
            match best {
                Some(b) => b < i && best_score > 0 && best_score == score(l, v[b as int])
                    && forall|j: int|
                    0 <= j < i ==> score(l, #[trigger] v[j]) < best_score || (score(l, v[j])
                        == best_score && b <= j),
                None => best_score == 0 && forall|j: int|
                    0 <= j < i ==> score(l, #[trigger] v[j]) == 0,
            },
    {
        let s: u32 = match_score(link, &list[i]);
        assert(s == score(l, v[i as int]));
        if s > best_score {
            best_score = s;
            best = Some(i);
        }
    }
    best
}

/// What raising the windows of a workspace came to.
#[derive(Debug)]
pub struct RaiseReport {
    pub raised: usize,
    /// The links for which there was no window.
    pub unresolved: Vec<String>,
}

/// What a [`RaiseReport`] stands for.
#[verifier::ext_equal]
pub struct RaiseReportView {
    pub raised: nat,
    pub unresolved: Seq<Seq<char>>,
}

impl DeepView for RaiseReport {
    type V = RaiseReportView;

    open spec fn deep_view(&self) -> RaiseReportView {
        RaiseReportView { raised: self.raised as nat, unresolved: self.unresolved.deep_view() }
    }
}

impl Default for RaiseReport {
    fn default() -> (r: Self)
        ensures
            r.deep_view() == (RaiseReportView { raised: 0, unresolved: Seq::empty() }),
    {
        let r = RaiseReport { raised: 0, unresolved: Vec::new() };
        assert(r.unresolved.deep_view() =~= Seq::<Seq<char>>::empty());
        r
    }
}

/// The links in the order in which their windows are raised: from the last to
/// the first, so that the first ends up in front.
pub fn raise_order(n: usize) -> (r: Vec<usize>)
    ensures
        r@.len() == n,
        forall|i: int| 0 <= i < n ==> #[trigger] r@[i] == n - 1 - i,
{
    let mut out: Vec<usize> = Vec::new();
    for i in 0..n
        invariant
            out@.len() == i,
            i <= n,
            forall|j: int| 0 <= j < i ==> #[trigger] out@[j] == n - 1 - j,
    {
        out.push(n - 1 - i);
    }
    out
}

/// How a link is named.
pub open spec fn link_label(link: LinkedWindowView) -> Seq<char> {
    link.app_name + " — "@ + (if link.title.len() == 0 {
        "(untitled)"@
    } else {
        link.title
    })
}

/// How a link is named.
pub fn label_of_link(link: &LinkedWindow) -> (r: String)
    ensures
        r@ == link_label(link.deep_view()),
{
    let cs = chars_of(link.title.as_str());
    if cs.len() == 0 {
        cat3(link.app_name.as_str(), " — ", "(untitled)")
    } else {
        cat3(link.app_name.as_str(), " — ", link.title.as_str())
    }
}

/// What raising came to: how many windows were raised, and the other links in
/// order.
pub open spec fn report_of(links: Seq<LinkedWindowView>, raised: Seq<bool>) -> RaiseReportView
    decreases links.len(),
{
    if links.len() == 0 {
        RaiseReportView { raised: 0, unresolved: Seq::empty() }
    } else {
        let rest = report_of(links.drop_last(), raised.drop_last());
        if raised.last() {
            RaiseReportView { raised: rest.raised + 1, ..rest }
        } else {
            RaiseReportView { unresolved: rest.unresolved.push(link_label(links.last())), ..rest }
        }
    }
}

/// Every link is either raised or named as unresolved.
pub proof fn report_law(links: Seq<LinkedWindowView>, raised: Seq<bool>)
    requires
        links.len() == raised.len(),
    ensures
        report_of(links, raised).raised + report_of(links, raised).unresolved.len() == links.len(),
    decreases links.len(),
{
    if links.len() > 0 {
        report_law(links.drop_last(), raised.drop_last());
    }
}

/// What raising the windows of some links came to, by whether each was raised.
pub fn raise_windows(links: &Vec<LinkedWindow>, raised: &Vec<bool>) -> (r: RaiseReport)
    requires
        links@.len() == raised@.len(),
    ensures
        r.deep_view() == report_of(links.deep_view(), raised@),
{
    let ghost v = links.deep_view();
    let ghost b = raised@;
    let mut report = RaiseReport::default();
    for i in 0..links.len()
        invariant
            v == links.deep_view(),
            b == raised@,
            v.len() == b.len(),
            report.deep_view() == report_of(v.take(i as int), b.take(i as int)),
            report.raised <= i,
    {
        proof {
            assert(v.take(i + 1).drop_last() =~= v.take(i as int));
            assert(b.take(i + 1).drop_last() =~= b.take(i as int));
            assert(v.take(i + 1).last() == links@[i as int].deep_view());
            assert(b.take(i + 1).last() == raised@[i as int]);
        }
        let ghost before = report.deep_view();
        if raised[i] {
            report.raised = report.raised + 1;
            assert(report.unresolved.deep_view() =~= before.unresolved);
        } else {
            report.unresolved.push(label_of_link(&links[i]));
            assert(report.unresolved.deep_view() =~= before.unresolved.push(
                link_label(links@[i as int].deep_view()),
            ));
        }
    }
    assert(v.take(v.len() as int) =~= v);
    assert(b.take(b.len() as int) =~= b);
    report
}

// ---------------------------------------------------------------------------
// Spaces
// ---------------------------------------------------------------------------

/// A display with its spaces.
#[derive(Debug)]
pub struct DisplaySpaces {
    pub identifier: Option<String>,
    pub spaces: Vec<u64>,
}

/// What a [`DisplaySpaces`] stands for.
pub struct DisplaySpacesView {
    pub identifier: Option<Seq<char>>,
    pub spaces: Seq<u64>,
}

impl DeepView for DisplaySpaces {
    type V = DisplaySpacesView;

    open spec fn deep_view(&self) -> DisplaySpacesView {
        DisplaySpacesView { identifier: self.identifier.deep_view(), spaces: self.spaces@ }
    }
}

/// The display that has a space: the first one, where it has an identifier.
pub open spec fn display_of(displays: Seq<DisplaySpacesView>, space: u64) -> Option<Seq<char>>
    decreases displays.len(),
{
    if displays.len() == 0 {
        None
    } else if displays[0].spaces.contains(space) {
        displays[0].identifier
    } else {
        display_of(displays.skip(1), space)
    }
}

/// The display that has a space.
pub fn display_for_space(displays: &Vec<DisplaySpaces>, space: u64) -> (r: Option<String>)
    ensures
        r.deep_view() == display_of(displays.deep_view(), space),
{
    let ghost v = displays.deep_view();
    assert(v.skip(0) =~= v);
    for i in 0..displays.len()
        invariant
            v == displays.deep_view(),
            display_of(v, space) == display_of(v.skip(i as int), space),
    {
        let d = &displays[i];
        proof {
            assert(v.skip(i as int)[0] == d.deep_view());
            assert(v.skip(i as int).skip(1) =~= v.skip(i + 1));
        }
        let mut here = false;
        for k in 0..d.spaces.len()
            invariant
                here == (exists|j: int| 0 <= j < k && #[trigger] d.spaces@[j] == space),
        {
            if d.spaces[k] == space {
                here = true;
            }
        }
        assert(here == d.spaces@.contains(space));
        if here {
            return d.identifier.clone();
        }
    }
    None
}

/// What is done to follow a window to its space.
#[derive(Debug, Clone, Copy, PartialEq, Eq, Structural)]
pub struct SpaceSwitch {
    /// The space to show, where another one is shown.
    pub show: Option<u64>,
    /// The space that was followed to last.
    pub last: Option<u64>,
}

/// What following a window to its space comes to.
pub open spec fn followed(space: Option<u64>, last: Option<u64>, shown: Option<u64>) -> SpaceSwitch {
    if space is Some && space != last && shown is Some {
        SpaceSwitch {
            show: if shown != space {
                space
            } else {
                None
            },
            last: space,
        }
    } else {
        SpaceSwitch { show: None, last }
    }
}

/// Follows a window to its space: not where the space or its display is not
/// known, nor where it was followed to last. `shown` is the space that the
/// display of the window shows, where there is one.
pub fn follow_space(space: Option<u64>, last: Option<u64>, shown: Option<u64>) -> (r: SpaceSwitch)
    ensures
        r == followed(space, last, shown),
{
    match (space, shown) {
        (Some(s), Some(now)) => {
            let again = match last {
                Some(l) => l == s,
                None => false,
            };
            if again {
                SpaceSwitch { show: None, last }
            } else if now != s {
                SpaceSwitch { show: Some(s), last: Some(s) }
            } else {
                SpaceSwitch { show: None, last: Some(s) }
            }
        },
        _ => SpaceSwitch { show: None, last },
    }
}

// ---------------------------------------------------------------------------
// Which windows there are, and which is meant
// ---------------------------------------------------------------------------

/// What tells a window best decides: its id, unless it has another document open by
/// now; then its document; then its title; then a title that begins like it. A
/// window that shares none of these is not meant.
pub proof fn score_order(link: LinkedWindowView, a: AxWindowView, b: AxWindowView)
    ensures
        ({
            let by_id = |w: AxWindowView|
                link.window_id is Some && w.window_id == link.window_id && !(link.document_path
                    is Some && w.document_path is Some && link.document_path != w.document_path);
            let by_doc = |w: AxWindowView|
                link.document_path is Some && w.document_path == link.document_path;
            let by_title = |w: AxWindowView| link.title.len() > 0 && w.title == link.title;
            let by_start = |w: AxWindowView|
                link.title.len() > 0 && w.title.len() > 0 && (link.title.is_prefix_of(w.title)
                    || w.title.is_prefix_of(link.title));
            &&& by_id(a) && !by_id(b) ==> score(link, a) > score(link, b)
            &&& !by_id(b) && by_doc(a) && !by_doc(b) ==> score(link, a) > score(link, b)
            &&& !by_id(b) && !by_doc(b) && by_title(a) && !by_title(b) ==> score(link, a) > score(
                link,
                b,
            )
            &&& !by_id(b) && !by_doc(b) && !by_title(b) && by_start(a) && !by_start(b) ==> score(
                link,
                a,
            ) > score(link, b)
            &&& score(link, a) == 0 <==> !by_id(a) && !by_doc(a) && !by_title(a) && !by_start(a)
        }),
{
}

/// The window that is meant is the one that is told best, the first of equals: no
/// window scores more, and none before it as much. There is at most one.
pub proof fn best_is_first(link: LinkedWindowView, list: Seq<AxWindowView>, i: int, j: int)
    requires
        is_best(link, list, i),
        0 <= j < list.len(),
    ensures
        score(link, list[j]) <= score(link, list[i]),
        j < i ==> score(link, list[j]) < score(link, list[i]),
        is_best(link, list, j) ==> i == j,
        score(link, list[i]) > 0,
{
    assert(score(link, list[j]) < score(link, list[i]) || (score(link, list[j]) == score(
        link,
        list[i],
    ) && i <= j));
}

/// An id is what makes two links mean the same window, where both have the same
/// one; else everything else has to be the same. Meaning the same window goes both
/// ways.
pub proof fn same_target_law(a: LinkedWindowView, b: LinkedWindowView)
    ensures
        a.window_id is Some && a.window_id == b.window_id ==> same_target(a, b),
        a.app_name == b.app_name && a.title == b.title && a.document_path == b.document_path
            ==> same_target(a, b),
        same_target(a, b) && (a.window_id is None || a.window_id != b.window_id) ==> a.app_name
            == b.app_name && a.title == b.title && a.document_path == b.document_path,
        same_target(a, b) == same_target(b, a),
{
}

/// A link to a window holds everything by which it is found again.
pub proof fn link_keeps_all(w: WindowInfoView)
    ensures
        w.link().app_name == w.app_name,
        w.link().title == w.title,
        w.link().document_path == w.document_path,
        w.link().window_id == w.window_id,
{
}

/// The applications with ordinary windows are listed once each, in the order of
/// their foremost windows, but for this one.
pub proof fn apps_once(list: Seq<(i32, Seq<char>)>, self_pid: i32, pid: i32)
    ensures
        owned_by(front_to_back(list, self_pid), pid) <==> pid != self_pid && owned_by(list, pid),
        forall|i: int, j: int|
            0 <= i < j < front_to_back(list, self_pid).len() ==> (#[trigger] front_to_back(
                list,
                self_pid,
            )[i]).0 != (#[trigger] front_to_back(list, self_pid)[j]).0,
    decreases list.len(),
{
    if list.len() > 0 {
        let t = list.drop_last();
        let x = list.last();
        let rest = front_to_back(t, self_pid);
        let all = front_to_back(list, self_pid);
        apps_once(t, self_pid, pid);
        if owned_by(rest, pid) {
            let i = choose|i: int| 0 <= i < rest.len() && (#[trigger] rest[i]).0 == pid;
            assert(all[i].0 == pid);
        }
        if owned_by(t, pid) {
            let i = choose|i: int| 0 <= i < t.len() && (#[trigger] t[i]).0 == pid;
            assert(list[i].0 == pid);
        }
        if owned_by(list, pid) && x.0 != pid {
            let i = choose|i: int| 0 <= i < list.len() && (#[trigger] list[i]).0 == pid;
            assert(t[i].0 == pid);
        }
        if x.0 == pid {
            assert(list[list.len() - 1].0 == pid);
        }
        if owned_by(all, pid) {
            let i = choose|i: int| 0 <= i < all.len() && (#[trigger] all[i]).0 == pid;
            if i < rest.len() {
                assert(rest[i].0 == pid);
            }
        }
        if x.0 != self_pid && !owned_by(rest, x.0) {
            assert(all[all.len() - 1] == x);
            assert forall|i: int, j: int| 0 <= i < j < all.len() implies (#[trigger] all[i]).0 != (
            #[trigger] all[j]).0 by {
                if j < rest.len() {
                    assert(rest[i].0 != rest[j].0);
                } else {
                    assert(all[i] == rest[i]);
                }
            }
        }
    }
}

/// An application is in front of another where its foremost window is: the list
/// grows at its end only.
pub proof fn apps_in_order(list: Seq<(i32, Seq<char>)>, self_pid: i32, more: (i32, Seq<char>))
    ensures
        front_to_back(list, self_pid).is_prefix_of(front_to_back(list.push(more), self_pid)),
        more.0 != self_pid && !owned_by(front_to_back(list, self_pid), more.0) ==> front_to_back(
            list.push(more),
            self_pid,
        ).last() == more,
{
    assert(list.push(more).drop_last() =~= list);
    let a = front_to_back(list, self_pid);
    let b = front_to_back(list.push(more), self_pid);
    assert(a =~= b.take(a.len() as int));
}

/// The processes of an application are those that own a window under its name, but
/// for this one, each once.
pub proof fn pids_by_name(list: Seq<(i32, Seq<char>)>, self_pid: i32, name: Seq<char>, pid: i32)
    ensures
        pids(list, self_pid, name).contains(pid) <==> pid != self_pid && exists|i: int|
            0 <= i < list.len() && #[trigger] list[i] == (pid, name),
        pids(list, self_pid, name).no_duplicates(),
    decreases list.len(),
{
    if list.len() > 0 {
        let t = list.drop_last();
        let x = list.last();
        let rest = pids(t, self_pid, name);
        let all = pids(list, self_pid, name);
        pids_by_name(t, self_pid, name, pid);
        if rest.contains(pid) {
            let k = choose|k: int| 0 <= k < rest.len() && rest[k] == pid;
            assert(all[k] == pid);
            let i = choose|i: int| 0 <= i < t.len() && #[trigger] t[i] == (pid, name);
            assert(list[i] == (pid, name));
        }
        if all.contains(pid) {
            let k = choose|k: int| 0 <= k < all.len() && all[k] == pid;
            if k < rest.len() {
                assert(rest[k] == pid);
            } else {
                assert(list[list.len() - 1] == (pid, name));
            }
        }
        if pid != self_pid && exists|i: int|
            0 <= i < list.len() && #[trigger] list[i] == (pid, name) {
            let i = choose|i: int| 0 <= i < list.len() && #[trigger] list[i] == (pid, name);
            if i < t.len() {
                assert(t[i] == (pid, name));
            } else if !rest.contains(pid) {
                assert(all[all.len() - 1] == pid);
            }
        }
    }
}

/// A window is offered exactly where it has a title or a document, and with
/// everything that is known of it.
pub proof fn windows_offered(apps: Seq<AppWindowsView>, w: WindowInfoView)
    ensures
        all_linkable(apps).contains(w) <==> exists|i: int, k: int|
            0 <= i < apps.len() && 0 <= k < apps[i].windows.len() && w.pid == apps[i].pid
                && w.app_name == apps[i].app_name && w.title == (#[trigger] apps[i].windows[k]).title
                && w.document_path == apps[i].windows[k].document_path && w.window_id
                == apps[i].windows[k].window_id && (trimmed(w.title).len() > 0
                || w.document_path is Some),
    decreases apps.len(),
{
    if apps.len() > 0 {
        let t = apps.drop_last();
        let n = apps.len() - 1;
        let a = apps[n];
        windows_offered(t, w);
        lemma_linkable(a.pid, a.app_name, a.windows, w);
        let rest = all_linkable(t);
        let last = linkable(a.pid, a.app_name, a.windows);
        let all = rest + last;
        assert(all_linkable(apps) == all);
        if rest.contains(w) {
            let k = choose|k: int| 0 <= k < rest.len() && rest[k] == w;
            assert(all[k] == w);
            let (i, m) = choose|i: int, k: int|
                0 <= i < t.len() && 0 <= k < t[i].windows.len() && w.pid == t[i].pid && w.app_name
                    == t[i].app_name && w.title == (#[trigger] t[i].windows[k]).title
                    && w.document_path == t[i].windows[k].document_path && w.window_id
                    == t[i].windows[k].window_id && (trimmed(w.title).len() > 0
                    || w.document_path is Some);
            assert(apps[i] == t[i]);
            assert(w.title == apps[i].windows[m].title);
        }
        if last.contains(w) {
            let k = choose|k: int| 0 <= k < last.len() && last[k] == w;
            assert(all[rest.len() + k] == w);
            let m = choose|m: int|
                0 <= m < a.windows.len() && is_linkable(#[trigger] a.windows[m]) && w == window_of(
                    a.pid,
                    a.app_name,
                    a.windows[m],
                );
            assert(w.title == apps[n].windows[m].title);
        }
        if all.contains(w) {
            let k = choose|k: int| 0 <= k < all.len() && all[k] == w;
            if k < rest.len() {
                assert(rest[k] == w);
            } else {
                assert(last[k - rest.len()] == w);
            }
        }
        if exists|i: int, k: int|
            0 <= i < apps.len() && 0 <= k < apps[i].windows.len() && w.pid == apps[i].pid
                && w.app_name == apps[i].app_name && w.title == (#[trigger] apps[i].windows[k]).title
                && w.document_path == apps[i].windows[k].document_path && w.window_id
                == apps[i].windows[k].window_id && (trimmed(w.title).len() > 0
                || w.document_path is Some) {
            let (i, m) = choose|i: int, k: int|
                0 <= i < apps.len() && 0 <= k < apps[i].windows.len() && w.pid == apps[i].pid
                    && w.app_name == apps[i].app_name && w.title == (
                #[trigger] apps[i].windows[k]).title && w.document_path
                    == apps[i].windows[k].document_path && w.window_id
                    == apps[i].windows[k].window_id && (trimmed(w.title).len() > 0
                    || w.document_path is Some);
            if i < n {
                assert(t[i] == apps[i]);
                assert(w.title == t[i].windows[m].title);
            } else {
                assert(is_linkable(a.windows[m]));
                assert(w =~= window_of(a.pid, a.app_name, a.windows[m]));
            }
        }
    }
}

proof fn lemma_linkable(pid: i32, app_name: Seq<char>, list: Seq<AxWindowView>, w: WindowInfoView)
    ensures
        linkable(pid, app_name, list).contains(w) <==> exists|m: int|
            0 <= m < list.len() && is_linkable(#[trigger] list[m]) && w == window_of(
                pid,
                app_name,
                list[m],
            ),
    decreases list.len(),
{
    if list.len() > 0 {
        let t = list.drop_last();
        lemma_linkable(pid, app_name, t, w);
        let rest = linkable(pid, app_name, t);
        let all = linkable(pid, app_name, list);
        if rest.contains(w) {
            let k = choose|k: int| 0 <= k < rest.len() && rest[k] == w;
            assert(all[k] == w);
            let m = choose|m: int|
                0 <= m < t.len() && is_linkable(#[trigger] t[m]) && w == window_of(
                    pid,
                    app_name,
                    t[m],
                );
            assert(list[m] == t[m]);
        }
        if is_linkable(list.last()) {
            assert(all[all.len() - 1] == window_of(pid, app_name, list.last()));
            assert(list[list.len() - 1] == list.last());
        }
        if all.contains(w) {
            let k = choose|k: int| 0 <= k < all.len() && all[k] == w;
            if k < rest.len() {
                assert(rest[k] == w);
            }
        }
        if exists|m: int|
            0 <= m < list.len() && is_linkable(#[trigger] list[m]) && w == window_of(
                pid,
                app_name,
                list[m],
            ) {
            let m = choose|m: int|
                0 <= m < list.len() && is_linkable(#[trigger] list[m]) && w == window_of(
                    pid,
                    app_name,
                    list[m],
                );
            if m < t.len() {
                assert(t[m] == list[m]);
            }
        }
    }
}

/// The owners of windows are those of the ordinary ones, in order, none left out.
pub proof fn owners_of_ordinary(list: Seq<CgWindowView>)
    ensures
        owners(list) == list.filter(
            |w: CgWindowView| w.layer == Some(0i64) && w.pid is Some,
        ).map_values(|w: CgWindowView| owner(w)),
    decreases list.len(),
{
    reveal(Seq::filter);
    let p = |w: CgWindowView| w.layer == Some(0i64) && w.pid is Some;
    let f = |w: CgWindowView| owner(w);
    if list.len() > 0 {
        owners_of_ordinary(list.drop_last());
        let g = list.drop_last().filter(p);
        if p(list.last()) {
            assert(g.push(list.last()).map_values(f) =~= g.map_values(f).push(owner(list.last())));
        }
    } else {
        assert(list.filter(p).map_values(f) =~= Seq::empty());
    }
}

/// As many links are reported as raised as were, and each other one is named, with
/// its application and its title, none twice over and none left out.
pub proof fn report_names_missing(links: Seq<LinkedWindowView>, raised: Seq<bool>, i: int)
    requires
        links.len() == raised.len(),
        0 <= i < links.len(),
    ensures
        report_of(links, raised).raised == raised.filter(|b: bool| b).len(),
        !raised[i] ==> report_of(links, raised).unresolved.contains(
            links[i].app_name + " — "@ + (if links[i].title.len() > 0 {
                links[i].title
            } else {
                "(untitled)"@
            }),
        ),
        report_of(links, raised).unresolved.len() == raised.filter(|b: bool| !b).len(),
    decreases links.len(),
{
    reveal(Seq::filter);
    let (l, r) = (links.drop_last(), raised.drop_last());
    let rest = report_of(l, r).unresolved;
    let all = report_of(links, raised).unresolved;
    if l.len() > 0 {
        report_names_missing(l, r, if i < l.len() { i } else { 0 });
        if i < l.len() {
            assert(l[i] == links[i] && r[i] == raised[i]);
            if !raised[i] {
                let x = link_label(links[i]);
                let k = choose|k: int| 0 <= k < rest.len() && rest[k] == x;
                assert(all[k] == x);
            }
        }
    } else {
        assert(r.filter(|b: bool| b).len() == 0);
        assert(r.filter(|b: bool| !b).len() == 0);
    }
    if i == l.len() && !raised[i] {
        assert(all[all.len() - 1] == link_label(links[i]));
    }
}

/// A space is on the first display that has it.
pub proof fn space_on_display(displays: Seq<DisplaySpacesView>, space: u64, i: int)
    requires
        0 <= i < displays.len(),
        displays[i].spaces.contains(space),
        forall|k: int| 0 <= k < i ==> !(#[trigger] displays[k]).spaces.contains(space),
    ensures
        display_of(displays, space) == displays[i].identifier,
    decreases i,
{
    if i > 0 {
        assert(!displays[0].spaces.contains(space));
        let t = displays.skip(1);
        assert(t[i - 1] == displays[i]);
        assert forall|k: int| 0 <= k < i - 1 implies !(#[trigger] t[k]).spaces.contains(space) by {
            assert(t[k] == displays[k + 1]);
        }
        space_on_display(t, space, i - 1);
    }
}

/// Another space is shown only where it is that of the window, it is not shown
/// already, and it was not followed to last; and a window is followed once.
pub proof fn followed_once(space: Option<u64>, last: Option<u64>, shown: Option<u64>, again: Option<u64>)
    ensures
        followed(space, last, shown).show is Some ==> followed(space, last, shown).show == space
            && shown is Some && shown != space && space != last,
        space is Some && shown is Some && shown != space && space != last ==> followed(
            space,
            last,
            shown,
        ).show == space,
        followed(space, followed(space, last, shown).last, again).show is None || followed(
            space,
            last,
            shown,
        ).last == last,
        followed(space, last, shown).show is Some ==> followed(
            space,
            followed(space, last, shown).last,
            again,
        ).show is None,
{
}

} // verus!
