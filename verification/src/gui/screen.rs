//! What the window says: lists, details, settings and messages.
use vstd::hash_map::StringHashMap;
use vstd::prelude::*;

use crate::ai_link::{WsContext, WsContextView};
use crate::assistant::{Assistant, AssistantView};
use crate::config::{Base, BaseView, Config, RepoRefView};
use crate::error::Error;
use crate::gui::forms::{Jobs, JobsView};
use crate::gui::panes::{
    find_workspace, workspace_at, workspace_by_name, Selection, SelectionView,
};
use crate::pr::{PrInfo, PrInfoView, PrState};
use crate::session::{
    counted_by_state, running_first, statuses, SessionRecord, SessionRecordView, SessionState,
    WorkspaceStatus,
};
use crate::text::{
    cat, cat3, decimal, decimal_law, decimal_of, join, joined, number_of, occurs, occurs_at, own,
    same,
};
use crate::time::{formatted, CLOCK_FORMAT, MINUTE_FORMAT};
use crate::window_manager::{RaiseReport, RaiseReportView};
use crate::workspace::{
    LinkedWindowView, WorkspaceConfig, WorkspaceConfigView, WorkspaceRepoView,
};

verus! {

// ---------------------------------------------------------------------------
// The frame of the window
// ---------------------------------------------------------------------------

#[derive(Debug, Clone, Copy, PartialEq, Eq, Structural)]
pub enum Tab {
    Workspaces,
    Settings,
}

/// What is shown of a workspace.
#[derive(Debug, Clone, Copy, PartialEq, Eq, Structural)]
pub enum WorkspaceView {
    Terminal,
    Details,
    Diff,
}

/// Shows the list alone, or everything again. Alone, it has no room for the
/// settings.
pub fn toggle_collapsed(tab: Tab, collapsed: bool) -> (r: (Tab, bool))
    ensures
        r.1 == !collapsed,
        r.0 == (if collapsed {
            tab
        } else {
            Tab::Workspaces
        }),
{
    if collapsed {
        (tab, false)
    } else {
        (Tab::Workspaces, true)
    }
}

/// Whether a form is open, which a terminal must not take the keyboard from.
pub fn any_modal_open(
    new_workspace: bool,
    new_base: bool,
    edit_base: bool,
    link_windows: bool,
    confirm: bool,
) -> (r: bool)
    ensures
        r == (new_workspace || new_base || edit_base || link_windows || confirm),
{
    new_workspace || new_base || edit_base || link_windows || confirm
}

/// What the bar at the top holds.
#[derive(Debug)]
pub struct TopBar {
    /// What the button to show less or more does.
    pub hint: String,
    pub refresh: String,
    /// Whether there is room for the title and the tabs.
    pub tabs: bool,
}

/// What the bar at the top holds.
pub fn top_bar(collapsed: bool) -> (r: TopBar)
    ensures
        r.tabs == !collapsed,
        r.hint@ == (if collapsed {
            "Show the terminal and details pane"@
        } else {
            "Collapse to just the workspace list"@
        }),
        r.refresh@ == (if collapsed {
            "⟳"@
        } else {
            "⟳ Refresh"@
        }),
{
    if collapsed {
        TopBar { hint: own("Show the terminal and details pane"), refresh: own("⟳"), tabs: false }
    } else {
        TopBar {
            hint: own("Collapse to just the workspace list"),
            refresh: own("⟳ Refresh"),
            tabs: true,
        }
    }
}

/// What the bar at the bottom holds.
#[derive(Debug)]
pub enum StatusBar {
    Hidden,
    Working(String),
    Done { ok: bool, mark: String, text: String },
}

/// What a [`StatusBar`] stands for.
pub enum StatusBarView {
    Hidden,
    Working(Seq<char>),
    Done { ok: bool, mark: Seq<char>, text: Seq<char> },
}

impl View for StatusBar {
    type V = StatusBarView;

    open spec fn view(&self) -> StatusBarView {
        match self {
            StatusBar::Hidden => StatusBarView::Hidden,
            StatusBar::Working(s) => StatusBarView::Working(s@),
            StatusBar::Done { ok, mark, text } => StatusBarView::Done {
                ok: *ok,
                mark: mark@,
                text: text@,
            },
        }
    }
}

/// What the bar at the bottom holds: what goes on, else what the last piece of
/// work came to.
pub open spec fn bar_of(jobs: JobsView) -> StatusBarView {
    match (jobs.running, jobs.status) {
        (Some(label), _) => StatusBarView::Working(label),
        (None, Some(s)) => StatusBarView::Done {
            ok: s.ok,
            mark: if s.ok {
                "✓"@
            } else {
                "✗"@
            },
            text: s.text,
        },
        (None, None) => StatusBarView::Hidden,
    }
}

/// What the bar at the bottom holds.
pub fn status_bar(jobs: &Jobs) -> (r: StatusBar)
    ensures
        r@ == bar_of(jobs@),
{
    if let Some(label) = &jobs.running {
        return StatusBar::Working(label.clone());
    }
    match &jobs.status {
        Some(s) => {
            let mark = if s.ok {
                own("✓")
            } else {
                own("✗")
            };
            StatusBar::Done { ok: s.ok, mark, text: s.text.clone() }
        },
        None => StatusBar::Hidden,
    }
}

/// A title with a count.
pub fn counted(title: &str, n: usize) -> (r: String)
    ensures
        r@ == title@ + " ("@ + decimal_of(n as nat) + ")"@,
{
    let d = decimal(n as u64);
    let head = cat3(title, " (", d.as_str());
    cat(head.as_str(), ")")
}

// ---------------------------------------------------------------------------
// What was read
// ---------------------------------------------------------------------------

/// The workspaces that were read: none, and why, where they could not be.
pub fn take_workspaces(read: Result<Vec<WorkspaceConfig>, Error>) -> (r: (
    Vec<WorkspaceConfig>,
    Option<String>,
))
    ensures
        match read {
            Ok(list) => r.0 == list && r.1 is None,
            Err(e) => r.0@.len() == 0 && r.1.deep_view() == Some(e@.message()),
        },
{
    match read {
        Ok(list) => (list, None),
        Err(e) => (Vec::new(), Some(e.message())),
    }
}

/// The configuration that was read: the one before, and why, where it could not
/// be.
pub fn take_config(before: Config, read: Result<Config, Error>) -> (r: (Config, Option<String>))
    ensures
        match read {
            Ok(c) => r.0 == c && r.1 is None,
            Err(e) => r.0 == before && r.1.deep_view() == Some(e@.message()),
        },
{
    match read {
        Ok(c) => (c, None),
        Err(e) => (before, Some(e.message())),
    }
}

// ---------------------------------------------------------------------------
// The list of workspaces
// ---------------------------------------------------------------------------

/// What is said of the state of a workspace.
pub open spec fn hover_of(
    who: AssistantView,
    state: SessionState,
    status: WorkspaceStatus,
) -> Seq<char> {
    who.title + ": "@ + state.words() + " ("@ + decimal_of(
        match state {
            SessionState::Running => status.running as nat,
            SessionState::Waiting => status.waiting as nat,
        },
    ) + ")"@
}

/// What is said of the state of a workspace.
pub fn status_hover(who: &Assistant, state: SessionState, status: WorkspaceStatus) -> (r: String)
    ensures
        r@ == hover_of(who@, state, status),
{
    let n: usize = match state {
        SessionState::Running => status.running,
        SessionState::Waiting => status.waiting,
    };
    let d = decimal(n as u64);
    let mut s = cat3(who.title.as_str(), ": ", state.label());
    s = cat(s.as_str(), " (");
    s = cat3(s.as_str(), d.as_str(), ")");
    s
}

/// A line of the list of workspaces.
#[derive(Debug)]
pub struct ListRow {
    pub name: String,
    pub label: String,
    pub selected: bool,
    pub state: Option<SessionState>,
    /// What is said of the state, where there is one.
    pub hover: Option<String>,
}

/// What a [`ListRow`] stands for.
#[verifier::ext_equal]
pub struct ListRowView {
    pub name: Seq<char>,
    pub label: Seq<char>,
    pub selected: bool,
    pub state: Option<SessionState>,
    pub hover: Option<Seq<char>>,
}

impl DeepView for ListRow {
    type V = ListRowView;

    open spec fn deep_view(&self) -> ListRowView {
        ListRowView {
            name: self.name@,
            label: self.label@,
            selected: self.selected,
            state: self.state,
            hover: self.hover.deep_view(),
        }
    }
}

/// The state of a workspace, nothing where it has no sessions.
pub open spec fn status_of(
    statuses: Map<Seq<char>, WorkspaceStatus>,
    name: Seq<char>,
) -> WorkspaceStatus {
    if statuses.contains_key(name) {
        statuses[name]
    } else {
        WorkspaceStatus { running: 0, waiting: 0 }
    }
}

/// Whether a workspace has linked windows.
pub open spec fn has_links(list: Seq<WorkspaceConfigView>, name: Seq<char>) -> bool {
    match workspace_at(list, name) {
        Some(i) => list[i].linked_windows.len() > 0,
        None => false,
    }
}

/// The line for a workspace: marked where it has linked windows, and with what
/// its sessions do.
pub open spec fn list_row(
    who: AssistantView,
    list: Seq<WorkspaceConfigView>,
    selected: Option<SelectionView>,
    statuses: Map<Seq<char>, WorkspaceStatus>,
    name: Seq<char>,
) -> ListRowView {
    let status = status_of(statuses, name);
    ListRowView {
        name,
        label: if has_links(list, name) {
            "⧉  "@ + name
        } else {
            name
        },
        selected: selected == Some(SelectionView::Workspace(name)),
        state: status.shown(),
        hover: match status.shown() {
            Some(s) => Some(hover_of(who, s, status)),
            None => None,
        },
    }
}

/// The list of workspaces.
pub fn workspace_list(
    who: &Assistant,
    workspaces: &Vec<WorkspaceConfig>,
    selected: &Option<Selection>,
    statuses: &StringHashMap<WorkspaceStatus>,
) -> (r: Vec<ListRow>)
    ensures
        r.deep_view() == workspaces.deep_view().map_values(
            |w: WorkspaceConfigView|
                list_row(
                    who@,
                    workspaces.deep_view(),
                    selected.deep_view(),
                    statuses@,
                    w.workspace.name,
                ),
        ),
{
    let ghost v = workspaces.deep_view();
    let ghost sel = selected.deep_view();
    let mut rows: Vec<ListRow> = Vec::new();
    for i in 0..workspaces.len()
        invariant
            v == workspaces.deep_view(),
            sel == selected.deep_view(),
            rows@.len() == i,
            forall|j: int|
                0 <= j < i ==> (#[trigger] rows@[j]).deep_view() == list_row(
                    who@,
                    v,
                    sel,
                    statuses@,
                    v[j].workspace.name,
                ),
    {
        let name = workspaces[i].workspace.name.as_str();
        assert(v[i as int].workspace.name == name@);
        let linked = match find_workspace(workspaces, name) {
            Some(k) => {
                assert(v[k as int].linked_windows.len() == workspaces@[k as int].linked_windows@.len());
                workspaces[k].linked_windows.len() > 0
            },
            None => false,
        };
        let label = if linked {
            cat("⧉  ", name)
        } else {
            own(name)
        };
        let is_selected = match selected {
            Some(Selection::Workspace(n)) => same(n.as_str(), name),
            _ => false,
        };
        let status = match statuses.get(name) {
            Some(s) => *s,
            None => WorkspaceStatus::default(),
        };
        let state = status.state();
        let hover = match state {
            Some(s) => Some(status_hover(who, s, status)),
            None => None,
        };
        rows.push(ListRow { name: own(name), label, selected: is_selected, state, hover });
        assert(rows@[i as int].deep_view() =~= list_row(
            who@,
            v,
            sel,
            statuses@,
            v[i as int].workspace.name,
        ));
    }
    assert(rows.deep_view() =~= v.map_values(
        |w: WorkspaceConfigView| list_row(who@, v, sel, statuses@, w.workspace.name),
    ));
    rows
}

// ---------------------------------------------------------------------------
// Pull requests
// ---------------------------------------------------------------------------

/// The pull requests of the workspaces that have been asked for, and the
/// workspaces that are being asked for.
pub struct PrStore {
    pub known: StringHashMap<Vec<PrInfo>>,
    pub asking: StringHashMap<bool>,
}

impl PrStore {
    /// With none.
    pub fn new() -> (r: PrStore)
        ensures
            r.known@ == Map::<Seq<char>, Vec<PrInfo>>::empty(),
            r.asking@ == Map::<Seq<char>, bool>::empty(),
    {
        PrStore { known: StringHashMap::new(), asking: StringHashMap::new() }
    }

    /// Whether a workspace has to be asked for now: where it is there, its pull
    /// requests are not known and it is not being asked for. One without repos
    /// has none, which is then known.
    pub fn request(&mut self, name: &str, workspaces: &Vec<WorkspaceConfig>) -> (r: bool)
        ensures
            ({
                let open = !old(self).asking@.contains_key(name@) && !old(
                    self).known@.contains_key(name@);
                match workspace_at(workspaces.deep_view(), name@) {
                    Some(i) => {
                        let n = workspaces.deep_view()[i].repos.len();
                        &&& r == (open && n > 0)
                        &&& final(self).asking@ == (if r {
                            old(self).asking@.insert(name@, true)
                        } else {
                            old(self).asking@
                        })
                        &&& open && n == 0 ==> final(self).known@.dom() == old(
                            self).known@.dom().insert(name@) && final(
                            self).known@[name@]@.len() == 0 && final(
                            self).known@.remove(name@) == old(self).known@.remove(name@)
                        &&& !(open && n == 0) ==> final(self).known@ == old(self).known@
                    },
                    None => !r && final(self).asking@ == old(self).asking@ && final(
                        self).known@ == old(self).known@,
                }
            }),
    {
        if self.asking.contains_key(name) || self.known.contains_key(name) {
            return false;
        }
        match find_workspace(workspaces, name) {
            Some(i) => {
                assert(workspaces.deep_view()[i as int].repos.len()
                    == workspaces@[i as int].repos@.len());
                if workspaces[i].repos.len() == 0 {
                    let ghost k = self.known@;
                    self.known.insert(own(name), Vec::new());
                    proof {
                        assert(self.known@.dom() =~= k.dom().insert(name@));
                        assert(self.known@.remove(name@) =~= k.remove(name@));
                    }
                    false
                } else {
                    self.asking.insert(own(name), true);
                    true
                }
            },
            None => false,
        }
    }

    /// Takes in the pull requests of a workspace.
    pub fn finish(&mut self, name: String, prs: Vec<PrInfo>)
        ensures
            final(self).asking@ == old(self).asking@.remove(name@),
            final(self).known@ == old(self).known@.insert(name@, prs),
    {
        self.asking.remove(name.as_str());
        self.known.insert(name, prs);
    }

    /// Forgets everything, so that it is asked for anew.
    pub fn clear(&mut self)
        ensures
            final(self).known@ == Map::<Seq<char>, Vec<PrInfo>>::empty(),
            final(self).asking@ == Map::<Seq<char>, bool>::empty(),
    {
        self.known.clear();
        self.asking.clear();
    }
}

/// A pull request as it is shown.
#[derive(Debug)]
pub struct PrChip {
    pub text: String,
    pub hover: String,
    pub url: String,
    pub state: PrState,
}

/// What a [`PrChip`] stands for.
#[verifier::ext_equal]
pub struct PrChipView {
    pub text: Seq<char>,
    pub hover: Seq<char>,
    pub url: Seq<char>,
    pub state: PrState,
}

impl DeepView for PrChip {
    type V = PrChipView;

    open spec fn deep_view(&self) -> PrChipView {
        PrChipView { text: self.text@, hover: self.hover@, url: self.url@, state: self.state }
    }
}

/// A pull request as it is shown: its number, and where it is from.
pub open spec fn chip_of(p: PrInfoView) -> PrChipView {
    PrChipView {
        text: "#"@ + decimal_of(p.number as nat),
        hover: p.repo + " · "@ + p.title + " ("@ + p.state.word() + ")"@,
        url: p.url,
        state: p.state,
    }
}

/// The pull requests as they are shown.
pub fn pr_chips(prs: &Vec<PrInfo>) -> (r: Vec<PrChip>)
    ensures
        r.deep_view() == prs.deep_view().map_values(|p: PrInfoView| chip_of(p)),
{
    let ghost v = prs.deep_view();
    let mut out: Vec<PrChip> = Vec::new();
    for i in 0..prs.len()
        invariant
            v == prs.deep_view(),
            out@.len() == i,
            forall|j: int| 0 <= j < i ==> (#[trigger] out@[j]).deep_view() == chip_of(v[j]),
    {
        let p = &prs[i];
        let n = decimal(p.number);
        let mut hover = cat3(p.repo.as_str(), " · ", p.title.as_str());
        hover = cat3(hover.as_str(), " (", p.state.label());
        hover = cat(hover.as_str(), ")");
        out.push(
            PrChip { text: cat("#", n.as_str()), hover, url: p.url.clone(), state: p.state },
        );
        assert(out@[i as int].deep_view() =~= chip_of(v[i as int]));
    }
    assert(out.deep_view() =~= v.map_values(|p: PrInfoView| chip_of(p)));
    out
}

// ---------------------------------------------------------------------------
// The details of a workspace
// ---------------------------------------------------------------------------

/// A session as it is shown.
#[derive(Debug)]
pub struct SessionLine {
    pub state: SessionState,
    pub label: String,
    pub updated: String,
    pub cwd: String,
}

/// What a [`SessionLine`] stands for.
#[verifier::ext_equal]
pub struct SessionLineView {
    pub state: SessionState,
    pub label: Seq<char>,
    pub updated: Seq<char>,
    pub cwd: Seq<char>,
}

impl DeepView for SessionLine {
    type V = SessionLineView;

    open spec fn deep_view(&self) -> SessionLineView {
        SessionLineView {
            state: self.state,
            label: self.label@,
            updated: self.updated@,
            cwd: self.cwd@,
        }
    }
}

/// A text, empty where there is none.
pub open spec fn or_empty(s: Option<Seq<char>>) -> Seq<char> {
    match s {
        Some(t) => t,
        None => Seq::empty(),
    }
}

/// A session as it is shown. `clock` is how the moment of its last report is
/// written.
pub open spec fn session_line_of(r: SessionRecordView, clock: Option<Seq<char>>) -> SessionLineView {
    SessionLineView {
        state: r.state,
        label: r.state.words(),
        updated: "· updated "@ + or_empty(clock),
        cwd: r.cwd,
    }
}

/// A session as it is shown.
pub fn session_line(r: &SessionRecord, clock: Option<String>) -> (l: SessionLine)
    ensures
        l.deep_view() == session_line_of(r.deep_view(), clock.deep_view()),
{
    let moment = match clock {
        Some(c) => c,
        None => String::new(),
    };
    assert(clock is None ==> moment@ =~= Seq::<char>::empty());
    SessionLine {
        state: r.state,
        label: own(r.state.label()),
        updated: cat("· updated ", moment.as_str()),
        cwd: r.cwd.clone(),
    }
}

/// The sessions of a workspace as they are shown.
pub open spec fn session_lines(records: Seq<SessionRecordView>, workspace: Seq<char>) -> Seq<
    SessionLineView,
>
    decreases records.len(),
{
    if records.len() == 0 {
        Seq::empty()
    } else {
        let rest = session_lines(records.drop_last(), workspace);
        let r = records.last();
        if r.workspace == workspace {
            rest.push(
                session_line_of(
                    r,
                    formatted(r.updated_at.secs, r.updated_at.nanos, CLOCK_FORMAT@),
                ),
            )
        } else {
            rest
        }
    }
}

/// The title of a window as it is shown.
pub open spec fn title_shown(title: Seq<char>) -> Seq<char> {
    if title.len() == 0 {
        "(untitled)"@
    } else {
        title
    }
}

/// The title of a window as it is shown.
pub fn shown_title(title: &str) -> (r: String)
    ensures
        r@ == title_shown(title@),
{
    if title.is_empty() {
        own("(untitled)")
    } else {
        own(title)
    }
}

/// The details of a workspace.
#[derive(Debug)]
pub struct Details {
    /// Each with what it is.
    pub facts: Vec<(String, String)>,
    pub sessions: Vec<SessionLine>,
    pub sessions_title: String,
    pub repos_title: String,
    pub links_title: String,
    /// Each with the name of its application.
    pub links: Vec<(String, String)>,
}

/// What [`Details`] stand for.
#[verifier::ext_equal]
pub struct DetailsView {
    pub facts: Seq<(Seq<char>, Seq<char>)>,
    pub sessions: Seq<SessionLineView>,
    pub sessions_title: Seq<char>,
    pub repos_title: Seq<char>,
    pub links_title: Seq<char>,
    pub links: Seq<(Seq<char>, Seq<char>)>,
}

impl DeepView for Details {
    type V = DetailsView;

    open spec fn deep_view(&self) -> DetailsView {
        DetailsView {
            facts: self.facts.deep_view(),
            sessions: self.sessions.deep_view(),
            sessions_title: self.sessions_title@,
            repos_title: self.repos_title@,
            links_title: self.links_title@,
            links: self.links.deep_view(),
        }
    }
}

/// A title with a count.
pub open spec fn count_title(title: Seq<char>, n: nat) -> Seq<char> {
    title + " ("@ + decimal_of(n) + ")"@
}

/// The details of a workspace. `created` is how the moment of its creation is
/// written, and `sessions` are its sessions as they are shown.
pub open spec fn details_of(
    who: AssistantView,
    w: WorkspaceConfigView,
    sessions: Seq<SessionLineView>,
    created: Option<Seq<char>>,
) -> DetailsView {
    DetailsView {
        facts: seq![
            ("Base"@, w.workspace.base),
            ("Branch"@, w.workspace.branch),
            ("Created"@, or_empty(created)),
            ("Path"@, w.workspace.path),
        ],
        sessions,
        sessions_title: count_title(who.title + " sessions"@, sessions.len()),
        repos_title: count_title("Repos"@, w.repos.len()),
        links_title: count_title("Linked windows"@, w.linked_windows.len()),
        links: w.linked_windows.map_values(
            |l: LinkedWindowView| (l.app_name, title_shown(l.title)),
        ),
    }
}

/// The sessions of a workspace as they are shown.
fn lines_for(records: &Vec<SessionRecord>, workspace: &str) -> (r: Vec<SessionLine>)
    ensures
        r.deep_view() == session_lines(records.deep_view(), workspace@),
{
    let ghost v = records.deep_view();
    let mut out: Vec<SessionLine> = Vec::new();
    assert(out.deep_view() =~= session_lines(v.take(0), workspace@));
    for i in 0..records.len()
        invariant
            v == records.deep_view(),
            out.deep_view() == session_lines(v.take(i as int), workspace@),
    {
        let rec = &records[i];
        proof {
            assert(v.take(i + 1).drop_last() =~= v.take(i as int));
            assert(v.take(i + 1).last() == rec.deep_view());
        }
        if same(rec.workspace.as_str(), workspace) {
            let ghost g = out.deep_view();
            let line = session_line(rec, rec.updated_at.clock_label());
            let ghost x = line.deep_view();
            out.push(line);
            assert(out.deep_view() =~= g.push(x));
        }
    }
    assert(v.take(v.len() as int) =~= v);
    out
}

/// The details of a workspace, by how the moment of its creation is written, and
/// its sessions as they are shown.
pub fn details_with(
    who: &Assistant,
    w: &WorkspaceConfig,
    sessions: Vec<SessionLine>,
    created: Option<String>,
) -> (r: Details)
    ensures
        r.deep_view() == details_of(
            who@,
            w.deep_view(),
            sessions.deep_view(),
            created.deep_view(),
        ),
{
    let ghost v = w.deep_view();
    let ghost s = sessions.deep_view();
    let moment = match created {
        Some(c) => c,
        None => String::new(),
    };
    assert(moment@ =~= or_empty(created.deep_view()));
    let mut facts: Vec<(String, String)> = Vec::new();
    facts.push((own("Base"), w.workspace.base.clone()));
    facts.push((own("Branch"), w.workspace.branch.clone()));
    facts.push((own("Created"), moment));
    facts.push((own("Path"), w.workspace.path.clone()));
    assert(facts.deep_view() =~= details_of(who@, v, s, created.deep_view()).facts);
    let mut links: Vec<(String, String)> = Vec::new();
    for i in 0..w.linked_windows.len()
        invariant
            v == w.deep_view(),
            links@.len() == i,
            forall|j: int|
                0 <= j < i ==> (#[trigger] links@[j]).0@ == v.linked_windows[j].app_name
                    && links@[j].1@ == title_shown(v.linked_windows[j].title),
    {
        let link = &w.linked_windows[i];
        assert(v.linked_windows[i as int] == link.deep_view());
        links.push((link.app_name.clone(), shown_title(link.title.as_str())));
    }
    assert(links.deep_view() =~= details_of(who@, v, s, created.deep_view()).links);
    assert(s.len() == sessions@.len());
    Details {
        facts,
        sessions_title: counted(cat(who.title.as_str(), " sessions").as_str(), sessions.len()),
        repos_title: counted("Repos", w.repos.len()),
        links_title: counted("Linked windows", w.linked_windows.len()),
        sessions,
        links,
    }
}

/// The details of a workspace.
pub fn workspace_details(who: &Assistant, w: &WorkspaceConfig, records: &Vec<SessionRecord>) -> (r:
    Details)
    ensures
        r.deep_view() == details_of(
            who@,
            w.deep_view(),
            session_lines(records.deep_view(), w.deep_view().workspace.name),
            formatted(
                w.deep_view().workspace.created_at.secs,
                w.deep_view().workspace.created_at.nanos,
                MINUTE_FORMAT@,
            ),
        ),
{
    let sessions = lines_for(records, w.workspace.name.as_str());
    details_with(who, w, sessions, w.workspace.created_at.minute_label())
}

// ---------------------------------------------------------------------------
// The settings
// ---------------------------------------------------------------------------

/// A repo of a base as it is shown.
#[derive(Debug)]
pub struct RepoLine {
    pub name: String,
    pub path: String,
    pub from: Option<String>,
}

/// What a [`RepoLine`] stands for.
#[verifier::ext_equal]
pub struct RepoLineView {
    pub name: Seq<char>,
    pub path: Seq<char>,
    pub from: Option<Seq<char>>,
}

impl DeepView for RepoLine {
    type V = RepoLineView;

    open spec fn deep_view(&self) -> RepoLineView {
        RepoLineView { name: self.name@, path: self.path@, from: self.from.deep_view() }
    }
}

/// A repo of a base as it is shown.
pub open spec fn repo_line(r: RepoRefView) -> RepoLineView {
    RepoLineView {
        name: r.name + ":"@,
        path: r.path,
        from: match r.branch_from {
            Some(b) => Some("[from "@ + b + "]"@),
            None => None,
        },
    }
}

/// A base as it is shown.
#[derive(Debug)]
pub struct BaseCard {
    pub name: String,
    pub size: String,
    pub branch_from: String,
    pub copy_files: Option<String>,
    pub repos: Vec<RepoLine>,
}

/// What a [`BaseCard`] stands for.
#[verifier::ext_equal]
pub struct BaseCardView {
    pub name: Seq<char>,
    pub size: Seq<char>,
    pub branch_from: Seq<char>,
    pub copy_files: Option<Seq<char>>,
    pub repos: Seq<RepoLineView>,
}

impl DeepView for BaseCard {
    type V = BaseCardView;

    open spec fn deep_view(&self) -> BaseCardView {
        BaseCardView {
            name: self.name@,
            size: self.size@,
            branch_from: self.branch_from@,
            copy_files: self.copy_files.deep_view(),
            repos: self.repos.deep_view(),
        }
    }
}

/// A base as it is shown: what it does not say itself is marked as inherited.
pub open spec fn base_card(name: Seq<char>, base: BaseView, default_from: Seq<char>) -> BaseCardView {
    BaseCardView {
        name,
        size: "· "@ + decimal_of(base.repos.len()) + " repo(s)"@,
        branch_from: match base.branch_from {
            Some(b) => b,
            None => default_from + " (inherited)"@,
        },
        copy_files: if base.copy_files.len() > 0 {
            Some(joined(base.copy_files, ", "@))
        } else {
            None
        },
        repos: base.repos.map_values(|r: RepoRefView| repo_line(r)),
    }
}

fn card(name: &str, base: &Base, default_from: &str) -> (r: BaseCard)
    ensures
        r.deep_view() == base_card(name@, base.deep_view(), default_from@),
{
    let ghost v = base.deep_view();
    let n = decimal(base.repos.len() as u64);
    let size = cat3("· ", n.as_str(), " repo(s)");
    let branch_from = match &base.branch_from {
        Some(b) => b.clone(),
        None => cat(default_from, " (inherited)"),
    };
    let copy_files = if base.copy_files.len() > 0 {
        Some(join(&base.copy_files, ", "))
    } else {
        None
    };
    let mut repos: Vec<RepoLine> = Vec::new();
    for i in 0..base.repos.len()
        invariant
            v == base.deep_view(),
            repos@.len() == i,
            forall|j: int| 0 <= j < i ==> (#[trigger] repos@[j]).deep_view() == repo_line(v.repos[j]),
    {
        let repo = &base.repos[i];
        assert(v.repos[i as int] == repo.deep_view());
        let from = match &repo.branch_from {
            Some(b) => Some(cat3("[from ", b.as_str(), "]")),
            None => None,
        };
        repos.push(
            RepoLine { name: cat(repo.name.as_str(), ":"), path: repo.path.clone(), from },
        );
    }
    assert(repos.deep_view() =~= v.repos.map_values(|r: RepoRefView| repo_line(r)));
    BaseCard { name: own(name), size, branch_from, copy_files, repos }
}

/// The bases as they are shown, in the order of their names.
pub fn settings_cards(config: &Config) -> (r: Vec<BaseCard>)
    ensures
        r.deep_view() == config@.bases.map_values(
            |b: (Seq<char>, BaseView)|
                base_card(b.0, b.1, config@.settings.default_branch_from),
        ),
{
    let ghost v = config@.bases;
    let ghost d = config@.settings.default_branch_from;
    let mut out: Vec<BaseCard> = Vec::new();
    for i in 0..config.bases.len()
        invariant
            v == config@.bases,
            d == config@.settings.default_branch_from,
            out@.len() == i,
            forall|j: int|
                0 <= j < i ==> (#[trigger] out@[j]).deep_view() == base_card(v[j].0, v[j].1, d),
    {
        out.push(
            card(
                config.bases[i].0.as_str(),
                &config.bases[i].1,
                config.settings.default_branch_from.as_str(),
            ),
        );
    }
    assert(out.deep_view() =~= v.map_values(
        |b: (Seq<char>, BaseView)| base_card(b.0, b.1, d),
    ));
    out
}

/// The name of the first base, which a new workspace is offered.
pub fn first_base(config: &Config) -> (r: Option<String>)
    ensures
        r.deep_view() == (if config@.bases.len() > 0 {
            Some(config@.bases[0].0)
        } else {
            None
        }),
{
    if config.bases.len() > 0 {
        Some(config.bases[0].0.clone())
    } else {
        None
    }
}

// ---------------------------------------------------------------------------
// Windows
// ---------------------------------------------------------------------------

/// What is said of windows that were raised: nothing where all of them were.
pub open spec fn raise_note(report: RaiseReportView) -> Option<Seq<char>> {
    if report.unresolved.len() == 0 {
        None
    } else {
        Some(
            "Raised "@ + decimal_of(report.raised) + " window(s); couldn't find: "@ + joined(
                report.unresolved,
                ", "@,
            ),
        )
    }
}

/// What is said of windows that were raised.
pub fn raise_message(report: &RaiseReport) -> (r: Option<String>)
    ensures
        r.deep_view() == raise_note(report.deep_view()),
{
    if report.unresolved.len() == 0 {
        return None;
    }
    let n = decimal(report.raised as u64);
    let names = join(&report.unresolved, ", ");
    let head = cat3("Raised ", n.as_str(), " window(s); couldn't find: ");
    Some(cat(head.as_str(), names.as_str()))
}

/// The directories of some repos: for each its worktree, then its source.
pub open spec fn repo_dirs(repos: Seq<WorkspaceRepoView>) -> Seq<Seq<char>>
    decreases repos.len(),
{
    if repos.len() == 0 {
        Seq::empty()
    } else {
        repo_dirs(repos.drop_last()).push(repos.last().worktree_path).push(repos.last().source)
    }
}

/// What windows are matched against for a workspace.
pub fn link_context(w: &WorkspaceConfig) -> (r: WsContext)
    ensures
        r.deep_view() == (WsContextView {
            name: w.deep_view().workspace.name,
            path: w.deep_view().workspace.path,
            repo_paths: repo_dirs(w.deep_view().repos),
        }),
{
    let ghost v = w.deep_view().repos;
    let mut repo_paths: Vec<String> = Vec::new();
    assert(repo_paths.deep_view() =~= repo_dirs(v.take(0)));
    for i in 0..w.repos.len()
        invariant
            v == w.deep_view().repos,
            repo_paths.deep_view() == repo_dirs(v.take(i as int)),
    {
        proof {
            assert(v.take(i + 1).drop_last() =~= v.take(i as int));
            assert(v.take(i + 1).last() == w.repos@[i as int].deep_view());
        }
        let ghost g = repo_paths.deep_view();
        repo_paths.push(w.repos[i].worktree_path.clone());
        repo_paths.push(w.repos[i].source.clone());
        assert(repo_paths.deep_view() =~= g.push(w.repos@[i as int].worktree_path@).push(
            w.repos@[i as int].source@,
        ));
    }
    assert(v.take(v.len() as int) =~= v);
    WsContext { name: w.workspace.name.clone(), path: w.workspace.path.clone(), repo_paths }
}

/// What is said while windows are linked.
pub fn auto_link_label(name: &str) -> (r: String)
    ensures
        r@ == "🤖 Auto-linking windows for '"@ + name@ + "'…"@,
{
    cat3("🤖 Auto-linking windows for '", name, "'…")
}

/// What is said when windows have been linked.
pub fn auto_link_done(who: &Assistant, links: usize, name: &str, claude_ok: bool) -> (r: String)
    ensures
        r@ == "Linked "@ + decimal_of(links as nat) + " window(s) to '"@ + name@ + (if claude_ok {
            "'"@
        } else {
            "' ("@ + who@.title + " unavailable; matched by directory)"@
        }),
{
    let n = decimal(links as u64);
    let head = cat3("Linked ", n.as_str(), " window(s) to '");
    if claude_ok {
        cat3(head.as_str(), name, "'")
    } else {
        let linked = cat3(head.as_str(), name, "' (");
        cat3(linked.as_str(), who.title.as_str(), " unavailable; matched by directory)")
    }
}

/// What is said when the links of a workspace have been saved.
pub fn links_saved(name: &str) -> (r: String)
    ensures
        r@ == "Updated linked windows for '"@ + name@ + "'"@,
{
    cat3("Updated linked windows for '", name, "'")
}

// ---------------------------------------------------------------------------
// What is shown
// ---------------------------------------------------------------------------

/// A workspace is shown by its name, marked where windows are linked to it, and with
/// the state of its sessions, by the records of them: running where one runs, waiting
/// where others wait, and none where it has none.
pub proof fn listed_state(
    who: AssistantView,
    list: Seq<WorkspaceConfigView>,
    selected: Option<SelectionView>,
    records: Seq<SessionRecordView>,
    k: int,
)
    requires
        records.len() <= usize::MAX,
        0 <= k < list.len(),
        forall|i: int|
            0 <= i < k ==> (#[trigger] list[i]).workspace.name != list[k].workspace.name,
    ensures
        ({
            let name = list[k].workspace.name;
            let row = list_row(who, list, selected, statuses(records), name);
            let has = |state: SessionState|
                records.filter(
                    |r: SessionRecordView| r.workspace == name && r.state == state,
                ).len() > 0;
            &&& row.name == name
            &&& name.is_suffix_of(row.label)
            &&& row.label == name <==> list[k].linked_windows.len() == 0
            &&& row.selected <==> selected == Some(SelectionView::Workspace(name))
            &&& row.state == (if has(SessionState::Running) {
                Some(SessionState::Running)
            } else if has(SessionState::Waiting) {
                Some(SessionState::Waiting)
            } else {
                None
            })
            &&& row.hover is Some <==> row.state is Some
        }),
{
    let name = list[k].workspace.name;
    workspace_by_name(list, name, k);
    running_first(records, name);
    counted_by_state(records, name, SessionState::Running);
    counted_by_state(records, name, SessionState::Waiting);
    reveal_strlit("⧉  ");
    let label = list_row(who, list, selected, statuses(records), name).label;
    assert(name =~= label.subrange(label.len() - name.len(), label.len() as int));
}

/// The sessions that are shown for a workspace are those of its records, each in its
/// state and with its directory, none left out and none of another.
pub proof fn sessions_shown(records: Seq<SessionRecordView>, workspace: Seq<char>)
    ensures
        ({
            let own = records.filter(|r: SessionRecordView| r.workspace == workspace);
            let lines = session_lines(records, workspace);
            &&& lines.len() == own.len()
            &&& forall|i: int|
                0 <= i < own.len() ==> (#[trigger] lines[i]).state == own[i].state && lines[i].cwd
                    == own[i].cwd && lines[i].label == own[i].state.words()
        }),
    decreases records.len(),
{
    reveal(Seq::filter);
    let p = |r: SessionRecordView| r.workspace == workspace;
    if records.len() > 0 {
        let t = records.drop_last();
        sessions_shown(t, workspace);
        let (own, rest) = (records.filter(p), t.filter(p));
        let (lines, before) = (session_lines(records, workspace), session_lines(t, workspace));
        assert(own == if p(records.last()) {
            rest.push(records.last())
        } else {
            rest
        });
        assert forall|i: int| 0 <= i < own.len() implies (#[trigger] lines[i]).state == own[i].state
            && lines[i].cwd == own[i].cwd && lines[i].label == own[i].state.words() by {
            if i < rest.len() {
                assert(lines[i] == before[i]);
                assert(own[i] == rest[i]);
            }
        }
    }
}

/// The directories by which windows are matched to a workspace are the worktree and
/// the source of each of its repos, none left out.
pub proof fn all_dirs_matched(repos: Seq<WorkspaceRepoView>, i: int)
    requires
        0 <= i < repos.len(),
    ensures
        repo_dirs(repos).len() == 2 * repos.len(),
        repo_dirs(repos)[2 * i] == repos[i].worktree_path,
        repo_dirs(repos)[2 * i + 1] == repos[i].source,
    decreases repos.len(),
{
    let t = repos.drop_last();
    if t.len() > 0 {
        all_dirs_matched(t, if i < t.len() { i } else { 0 });
        if i < t.len() {
            assert(t[i] == repos[i]);
        }
    } else {
        assert(repo_dirs(t).len() == 0);
    }
}

/// The bar at the bottom says what is being done, and else what came of it, and
/// whether it worked.
pub proof fn bar_tells(jobs: JobsView)
    ensures
        jobs.running is Some ==> bar_of(jobs) == StatusBarView::Working(jobs.running->0),
        jobs.running is None && jobs.status is Some ==> bar_of(jobs) is Done && bar_of(jobs)->Done_ok
            == jobs.status->0.ok && bar_of(jobs)->Done_text == jobs.status->0.text,
        bar_of(jobs) is Hidden <==> jobs.running is None && jobs.status is None,
{
}

/// A card of a base tells where its branches start: from its own ref, and else from
/// the default, and that of each repo that has its own; how many repos it has, and
/// all the files that are copied.
pub proof fn card_tells(name: Seq<char>, base: BaseView, default_from: Seq<char>, i: int)
    requires
        0 <= i < base.repos.len(),
    ensures
        ({
            let c = base_card(name, base, default_from);
            &&& c.name == name
            &&& base.branch_from is Some ==> c.branch_from == base.branch_from->0
            &&& base.branch_from is None ==> default_from.is_prefix_of(c.branch_from)
                && c.branch_from != default_from
            &&& c.repos.len() == base.repos.len()
            &&& c.repos[i].path == base.repos[i].path
            &&& base.repos[i].name.is_prefix_of(c.repos[i].name)
            &&& c.repos[i].from is Some <==> base.repos[i].branch_from is Some
            &&& c.copy_files is Some <==> base.copy_files.len() > 0
        }),
{
    reveal_strlit(" (inherited)");
    reveal_strlit(":");
    let c = base_card(name, base, default_from);
    if base.branch_from is None {
        assert(default_from =~= c.branch_from.take(default_from.len() as int));
        assert(c.branch_from.len() > default_from.len());
    }
    let n = base.repos[i].name;
    assert(c.repos[i] == repo_line(base.repos[i]));
    assert(n =~= c.repos[i].name.take(n.len() as int));
}

/// A pull request is shown by its number, opens its own page and has its own state.
pub proof fn chip_tells(p: PrInfoView)
    ensures
        chip_of(p).url == p.url,
        chip_of(p).state == p.state,
        chip_of(p).text.len() > 1 && chip_of(p).text[0] == '#' && number_of(chip_of(p).text.skip(1))
            == p.number,
        p.repo.is_prefix_of(chip_of(p).hover),
{
    reveal_strlit("#");
    let d = decimal_of(p.number as nat);
    decimal_law(p.number as nat, p.number as nat);
    assert(chip_of(p).text.skip(1) =~= d);
    assert(p.repo =~= chip_of(p).hover.take(p.repo.len() as int));
}

/// Nothing is said of windows that were raised, unless some could not be found: then
/// every one of those is named.
pub proof fn missing_windows_named(report: RaiseReportView)
    ensures
        raise_note(report) is None <==> report.unresolved.len() == 0,
        raise_note(report) is Some ==> joined(report.unresolved, ", "@).is_suffix_of(
            raise_note(report)->0,
        ),
{
    if report.unresolved.len() > 0 {
        let s = raise_note(report)->0;
        let j = joined(report.unresolved, ", "@);
        assert(j =~= s.subrange(s.len() - j.len(), s.len() as int));
    }
}

/// What is said of the state of a workspace counts the sessions in that state.
pub proof fn hover_counts(who: AssistantView, state: SessionState, status: WorkspaceStatus)
    ensures
        who.title.is_prefix_of(hover_of(who, state, status)),
        ("("@ + decimal_of(
            if state == SessionState::Running {
                status.running as nat
            } else {
                status.waiting as nat
            },
        ) + ")"@).is_suffix_of(hover_of(who, state, status)),
        occurs(hover_of(who, state, status), state.words()),
{
    reveal_strlit(" (");
    reveal_strlit("(");
    let s = hover_of(who, state, status);
    let p = "("@ + decimal_of(
        if state == SessionState::Running {
            status.running as nat
        } else {
            status.waiting as nat
        },
    ) + ")"@;
    assert(who.title =~= s.take(who.title.len() as int));
    assert(p =~= s.subrange(s.len() - p.len(), s.len() as int));
    let w = state.words();
    let k = (who.title + ": "@).len() as int;
    assert(s.subrange(k, k + w.len()) =~= w);
    assert(occurs_at(s, w, k));
}

/// The details of a workspace tell its base, its branch and its path, how many repos
/// it has, and each window that is linked to it.
pub proof fn details_tell(
    who: AssistantView,
    w: WorkspaceConfigView,
    sessions: Seq<SessionLineView>,
    created: Option<Seq<char>>,
    i: int,
)
    ensures
        ({
            let d = details_of(who, w, sessions, created);
            &&& d.facts.contains(("Base"@, w.workspace.base))
            &&& d.facts.contains(("Branch"@, w.workspace.branch))
            &&& d.facts.contains(("Path"@, w.workspace.path))
            &&& created is Some ==> d.facts.contains(("Created"@, created->0))
            &&& d.sessions == sessions
            &&& d.links.len() == w.linked_windows.len()
            &&& 0 <= i < w.linked_windows.len() ==> d.links[i].0 == w.linked_windows[i].app_name && (
            w.linked_windows[i].title.len() > 0 ==> d.links[i].1 == w.linked_windows[i].title)
            &&& ("("@ + decimal_of(w.repos.len()) + ")"@).is_suffix_of(d.repos_title)
            &&& ("("@ + decimal_of(sessions.len()) + ")"@).is_suffix_of(d.sessions_title)
            &&& ("("@ + decimal_of(w.linked_windows.len()) + ")"@).is_suffix_of(d.links_title)
        }),
{
    let d = details_of(who, w, sessions, created);
    assert(d.facts[0] == ("Base"@, w.workspace.base));
    assert(d.facts[1] == ("Branch"@, w.workspace.branch));
    assert(d.facts[2] == ("Created"@, or_empty(created)));
    assert(d.facts[3] == ("Path"@, w.workspace.path));
    lemma_count_title("Repos"@, w.repos.len());
    lemma_count_title(who.title + " sessions"@, sessions.len());
    lemma_count_title("Linked windows"@, w.linked_windows.len());
}

proof fn lemma_count_title(title: Seq<char>, n: nat)
    ensures
        ("("@ + decimal_of(n) + ")"@).is_suffix_of(count_title(title, n)),
{
    reveal_strlit(" (");
    reveal_strlit("(");
    let s = count_title(title, n);
    let p = "("@ + decimal_of(n) + ")"@;
    assert(p =~= s.subrange(s.len() - p.len(), s.len() as int));
}

} // verus!
