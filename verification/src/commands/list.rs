//! Listing workspaces.
use vstd::hash_map::StringHashMap;
use vstd::prelude::*;

use crate::session::{
    counted_by_state, running_first, statuses, SessionRecordView, SessionState, WorkspaceStatus,
};
use crate::text::{decimal, decimal_law, decimal_of, number_of, own};
use crate::workspace::{WorkspaceConfig, WorkspaceConfigView};

verus! {

/// A line of the list.
#[derive(Debug)]
pub struct WorkspaceRow {
    pub name: String,
    pub base: String,
    pub branch: String,
    /// How many repos it has.
    pub repos: String,
    pub path: String,
    /// What its sessions of the assistant do, empty where it has none.
    pub session: String,
}

/// What a [`WorkspaceRow`] stands for.
#[verifier::ext_equal]
pub struct WorkspaceRowView {
    pub name: Seq<char>,
    pub base: Seq<char>,
    pub branch: Seq<char>,
    pub repos: Seq<char>,
    pub path: Seq<char>,
    pub session: Seq<char>,
}

impl DeepView for WorkspaceRow {
    type V = WorkspaceRowView;

    open spec fn deep_view(&self) -> WorkspaceRowView {
        WorkspaceRowView {
            name: self.name@,
            base: self.base@,
            branch: self.branch@,
            repos: self.repos@,
            path: self.path@,
            session: self.session@,
        }
    }
}

/// What the sessions of the assistant of a workspace do.
pub open spec fn session_label(
    name: Seq<char>,
    statuses: Map<Seq<char>, WorkspaceStatus>,
) -> Seq<char> {
    if statuses.contains_key(name) {
        match statuses[name].shown() {
            Some(s) => s.words(),
            None => ""@,
        }
    } else {
        ""@
    }
}

/// A line of the list.
pub open spec fn row_of(
    w: WorkspaceConfigView,
    statuses: Map<Seq<char>, WorkspaceStatus>,
) -> WorkspaceRowView {
    WorkspaceRowView {
        name: w.workspace.name,
        base: w.workspace.base,
        branch: w.workspace.branch,
        repos: decimal_of(w.repos.len()),
        path: w.workspace.path,
        session: session_label(w.workspace.name, statuses),
    }
}

/// The list, a line for each workspace.
pub fn run(workspaces: &Vec<WorkspaceConfig>, statuses: &StringHashMap<WorkspaceStatus>) -> (r: Vec<
    WorkspaceRow,
>)
    ensures
        r.deep_view() == workspaces.deep_view().map_values(
            |w: WorkspaceConfigView| row_of(w, statuses@),
        ),
{
    let ghost v = workspaces.deep_view();
    let mut rows: Vec<WorkspaceRow> = Vec::new();
    for i in 0..workspaces.len()
        invariant
            v == workspaces.deep_view(),
            rows@.len() == i,
            forall|j: int| 0 <= j < i ==> (#[trigger] rows@[j]).deep_view() == row_of(v[j], statuses@),
    {
        let w = &workspaces[i];
        let session = match statuses.get(w.workspace.name.as_str()) {
            Some(s) => match s.state() {
                Some(state) => own(state.label()),
                None => own(""),
            },
            None => own(""),
        };
        rows.push(
            WorkspaceRow {
                name: w.workspace.name.clone(),
                base: w.workspace.base.clone(),
                branch: w.workspace.branch.clone(),
                repos: decimal(w.repos.len() as u64),
                path: w.workspace.path.clone(),
                session,
            },
        );
        assert(rows@[i as int].deep_view() =~= row_of(v[i as int], statuses@));
    }
    assert(rows.deep_view() =~= v.map_values(|w: WorkspaceConfigView| row_of(w, statuses@)));
    rows
}

/// What a workspace is listed with: what is remembered of it, how many repos it has,
/// and what its sessions do, by the records of them: running where one runs, waiting
/// where others wait, and nothing where it has none.
pub proof fn listed_with_sessions(w: WorkspaceConfigView, records: Seq<SessionRecordView>)
    requires
        records.len() <= usize::MAX,
    ensures
        ({
            let row = row_of(w, statuses(records));
            let has = |state: SessionState|
                records.filter(
                    |r: SessionRecordView| r.workspace == w.workspace.name && r.state == state,
                ).len() > 0;
            &&& row.name == w.workspace.name
            &&& row.base == w.workspace.base
            &&& row.branch == w.workspace.branch
            &&& row.path == w.workspace.path
            &&& number_of(row.repos) == w.repos.len()
            &&& row.session == (if has(SessionState::Running) {
                "running"@
            } else if has(SessionState::Waiting) {
                "waiting for input"@
            } else {
                ""@
            })
        }),
{
    let name = w.workspace.name;
    running_first(records, name);
    counted_by_state(records, name, SessionState::Running);
    counted_by_state(records, name, SessionState::Waiting);
    decimal_law(w.repos.len(), w.repos.len());
}

} // verus!
