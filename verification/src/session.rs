//! The state of the assistant sessions that run in workspaces.
//!
//! The assistant fires hooks, which are set up in each workspace to report to this
//! program. Each report leaves a small record with the owning workspace.
use vstd::hash_map::StringHashMap;
use vstd::prelude::*;
use vstd::utf8::encode_utf8;

use crate::assistant::Assistant;
use crate::config::{config_path, Environment};
use crate::error::{outcome, Error, ErrorView};
use crate::git::{answer, Output};
use crate::json::{
    alike, fields_shallow, fields_wf, file_of, lemma_alike_entry, lemma_array_view,
    lemma_fields_shallow, lemma_object_view, lemma_part_wf, lemma_put_shallow, lemma_put_wf,
    parse_json, parsed_json, shallow, well_formed, write_document, Fields, Json, JsonView,
    MAX_NESTING,
};
use crate::paths::{
    components_of, extension, extension_of, extension_of_file, is_absolute, is_within, join_path, joined_lies_below,
    joined_path, path_starts_with,
};
use crate::table::{
    entry, find_entry, ordered, put, put_entry, put_law, put_without, remove_law,
};
use crate::text::{
    among, cat, cat3, chars_of, contains, first_word, is_alnum, is_ascii_alphanumeric, is_sep,
    occurs, occurs_at, own, same, string_of, trim, words_of,
};
use crate::time::{elapsed, seconds_between, Timestamp};
use crate::workspace::{WorkspaceConfig, WorkspaceConfigView};

verus! {

/// Whether a session works or waits for the user. A turn that is over, a
/// question about permissions and a fresh prompt are all waiting.
#[derive(Debug, Clone, Copy, PartialEq, Eq, Structural)]
pub enum SessionState {
    Running,
    Waiting,
}

impl SessionState {
    /// The words for it.
    pub open spec fn words(self) -> Seq<char> {
        match self {
            SessionState::Running => "running"@,
            SessionState::Waiting => "waiting for input"@,
        }
    }

    /// The words for it.
    pub fn label(self) -> (r: &'static str)
        ensures
            r@ == self.words(),
    {
        match self {
            SessionState::Running => "running",
            SessionState::Waiting => "waiting for input",
        }
    }
}

/// The last that is known of a session.
#[derive(Debug)]
pub struct SessionRecord {
    pub session_id: String,
    /// The workspace that owns it.
    pub workspace: String,
    /// The directory that it reported.
    pub cwd: String,
    pub state: SessionState,
    pub updated_at: Timestamp,
    /// The process of the assistant, as far as it is known.
    pub pid: Option<i32>,
}

/// What a [`SessionRecord`] stands for.
#[verifier::ext_equal]
pub struct SessionRecordView {
    pub session_id: Seq<char>,
    pub workspace: Seq<char>,
    pub cwd: Seq<char>,
    pub state: SessionState,
    pub updated_at: Timestamp,
    pub pid: Option<i32>,
}

impl DeepView for SessionRecord {
    type V = SessionRecordView;

    open spec fn deep_view(&self) -> SessionRecordView {
        SessionRecordView {
            session_id: self.session_id@,
            workspace: self.workspace@,
            cwd: self.cwd@,
            state: self.state,
            updated_at: self.updated_at,
            pid: self.pid,
        }
    }
}

/// How many sessions of a workspace run, and how many wait.
#[derive(Debug, Clone, Copy, PartialEq, Eq, Structural)]
pub struct WorkspaceStatus {
    pub running: usize,
    pub waiting: usize,
}

impl Default for WorkspaceStatus {
    fn default() -> (r: Self)
        ensures
            r == (WorkspaceStatus { running: 0, waiting: 0 }),
    {
        WorkspaceStatus { running: 0, waiting: 0 }
    }
}

impl WorkspaceStatus {
    /// The one state to show: running before waiting.
    pub open spec fn shown(self) -> Option<SessionState> {
        if self.running > 0 {
            Some(SessionState::Running)
        } else if self.waiting > 0 {
            Some(SessionState::Waiting)
        } else {
            None
        }
    }

    /// The one state to show: running before waiting.
    pub fn state(self) -> (r: Option<SessionState>)
        ensures
            r == self.shown(),
    {
        if self.running > 0 {
            Some(SessionState::Running)
        } else if self.waiting > 0 {
            Some(SessionState::Waiting)
        } else {
            None
        }
    }
}

/// A record that has not been updated for so many seconds is stale.
pub const MAX_AGE_SECS: i64 = 86400;

// ---------------------------------------------------------------------------
// Where records are kept
// ---------------------------------------------------------------------------

/// The directory with one file per session.
pub fn sessions_dir(env: &Environment) -> (r: Result<String, Error>)
    ensures
        outcome(r) == env@.config_path("sessions"@),
{
    config_path(env, "sessions")
}

/// A character that is kept in the name of a file.
pub open spec fn is_safe(c: char) -> bool {
    is_alnum(c) || c == '-' || c == '_'
}

/// The session's id as the name of a file: every other character is an underscore.
pub open spec fn safe_name(id: Seq<char>) -> Seq<char> {
    id.map_values(
        |c: char|
            if is_safe(c) {
                c
            } else {
                '_'
            },
    )
}

/// The file that holds the record of a session.
pub fn record_path(env: &Environment, session_id: &str) -> (r: Result<String, Error>)
    ensures
        outcome(r) == (match env@.config_path("sessions"@) {
            Ok(dir) => Ok(joined_path(dir, safe_name(session_id@) + ".json"@)),
            Err(e) => Err(e),
        }),
{
    let cs = chars_of(session_id);
    let mut safe: Vec<char> = Vec::new();
    for i in 0..cs.len()
        invariant
            cs@ == session_id@,
            safe@.len() == i,
            forall|j: int| 0 <= j < i ==> #[trigger] safe@[j] == safe_name(session_id@)[j],
    {
        let c = cs[i];
        if is_ascii_alphanumeric(c) || c == '-' || c == '_' {
            safe.push(c);
        } else {
            safe.push('_');
        }
    }
    assert(safe@ =~= safe_name(session_id@));
    let name = string_of(&safe);
    let file = cat(name.as_str(), ".json");
    match sessions_dir(env) {
        Ok(dir) => Ok(join_path(dir.as_str(), file.as_str())),
        Err(e) => Err(e),
    }
}

/// Whatever its id, the record of a session lies directly in the directory of
/// the sessions.
pub proof fn record_stays_inside(dir: Seq<char>, id: Seq<char>)
    ensures
        !safe_name(id).contains('/'),
        !safe_name(id).contains('.'),
        !(safe_name(id) + ".json"@).contains('/'),
        dir.is_prefix_of(joined_path(dir, safe_name(id) + ".json"@)),
{
    let s = safe_name(id);
    let f = s + ".json"@;
    reveal_strlit(".json");
    assert forall|i: int| 0 <= i < s.len() implies s[i] != '/' && s[i] != '.' by {
        assert(is_safe(s[i]));
    }
    assert forall|i: int| 0 <= i < f.len() implies f[i] != '/' by {
        if i < s.len() {
            assert(f[i] == s[i]);
        } else {
            assert(f[i] == ".json"@[i - s.len()]);
        }
    }
    assert(!is_absolute(f));
}

// ---------------------------------------------------------------------------
// The workspace that owns a session
// ---------------------------------------------------------------------------

/// A path as it is compared: where the file system could resolve it, that.
pub fn normalize(path: &str, canonical: Option<String>) -> (r: String)
    ensures
        r@ == (match canonical.deep_view() {
            Some(c) => c,
            None => path@,
        }),
{
    match canonical {
        Some(c) => c,
        None => own(path),
    }
}

/// The bytes of a path.
pub open spec fn byte_len(p: Seq<char>) -> usize {
    encode_utf8(p).len() as usize
}

/// Whether the workspace at index `i` owns a directory: the directory lies in
/// it, and in no other one with a longer path, nor in an earlier one with a
/// path as long.
pub open spec fn owns(list: Seq<WorkspaceConfigView>, i: int, dir: Seq<char>) -> bool {
    &&& 0 <= i < list.len()
    &&& is_within(dir, list[i].workspace.path)
    &&& forall|j: int|
        0 <= j < list.len() && is_within(dir, (#[trigger] list[j]).workspace.path) ==> byte_len(
            list[j].workspace.path,
        ) < byte_len(list[i].workspace.path) || (byte_len(list[j].workspace.path) == byte_len(
            list[i].workspace.path,
        ) && i <= j)
}

/// The name of the workspace that owns a directory, if one does. All paths are
/// taken as they are to be compared.
pub fn resolve_workspace(project_dir: &str, workspaces: &Vec<WorkspaceConfig>) -> (r: Option<
    String,
>)
    ensures
        match r {
            Some(name) => exists|i: int|
                #[trigger] owns(workspaces.deep_view(), i, project_dir@) && name@
                    == workspaces.deep_view()[i].workspace.name,
            None => forall|i: int|
                0 <= i < workspaces.deep_view().len() ==> !is_within(
                    project_dir@,
                    (#[trigger] workspaces.deep_view()[i]).workspace.path,
                ),
        },
{
    let ghost v = workspaces.deep_view();
    let mut best: Option<usize> = None;
    for i in 0..workspaces.len()
        invariant
            v == workspaces.deep_view(),
            match best {
                Some(b) => b < i && owns(v.take(i as int), b as int, project_dir@),
                None => forall|j: int|
                    0 <= j < i ==> !is_within(project_dir@, (#[trigger] v[j]).workspace.path),
            },
    {
        let ghost was = best;
        let path = workspaces[i].workspace.path.as_str();
        assert(v[i as int].workspace.path == path@);
        if path_starts_with(project_dir, path) {
            let len: usize = path.len();
            let better = match best {
                Some(b) => {
                    let other: usize = workspaces[b].workspace.path.as_str().len();
                    len > other
                },
                None => true,
            };
            if better {
                best = Some(i);
            }
        }
        proof {
            let t = v.take(i + 1);
            assert forall|j: int| 0 <= j < i implies #[trigger] t[j] == v.take(i as int)[j] by {}
            if let Some(b) = best {
                assert forall|j: int|
                    0 <= j < t.len() && is_within(
                        project_dir@,
                        (#[trigger] t[j]).workspace.path,
                    ) implies byte_len(t[j].workspace.path) < byte_len(t[b as int].workspace.path)
                    || (byte_len(t[j].workspace.path) == byte_len(t[b as int].workspace.path) && b
                    <= j) by {
                    if j < i {
                        assert(t[j] == v[j]);
                        assert(v.take(i as int)[j] == v[j]);
                        if let Some(w) = was {
                            assert(v.take(i as int)[w as int] == v[w as int]);
                        }
                    }
                }
                assert(owns(t, b as int, project_dir@));
            }
        }
    }
    assert(v.take(v.len() as int) =~= v);
    match best {
        Some(b) => {
            assert(owns(v, b as int, project_dir@));
            Some(workspaces[b].workspace.name.clone())
        },
        None => None,
    }
}

/// At most one workspace owns a directory.
pub proof fn owner_unique(list: Seq<WorkspaceConfigView>, i: int, j: int, dir: Seq<char>)
    requires
        owns(list, i, dir),
        owns(list, j, dir),
    ensures
        i == j,
{
    assert(is_within(dir, list[i].workspace.path) && is_within(dir, list[j].workspace.path));
}

/// The record of a session that a workspace owns.
pub open spec fn recorded(
    session_id: Seq<char>,
    workspace: Seq<char>,
    cwd: Seq<char>,
    state: SessionState,
    now: Timestamp,
    pid: Option<i32>,
) -> SessionRecordView {
    SessionRecordView { session_id, workspace, cwd, state, updated_at: now, pid }
}

/// The record to write for a session that reports from `project_dir`: none where
/// no workspace owns that directory. `target` and the paths of the workspaces
/// are as they are to be compared.
pub fn record(
    session_id: &str,
    project_dir: &str,
    target: &str,
    workspaces: &Vec<WorkspaceConfig>,
    state: SessionState,
    pid: Option<i32>,
    now: Timestamp,
) -> (r: Option<SessionRecord>)
    ensures
        match r {
            Some(rec) => exists|i: int|
                #[trigger] owns(workspaces.deep_view(), i, target@) && rec.deep_view() == recorded(
                    session_id@,
                    workspaces.deep_view()[i].workspace.name,
                    project_dir@,
                    state,
                    now,
                    pid,
                ),
            None => forall|i: int|
                0 <= i < workspaces.deep_view().len() ==> !is_within(
                    target@,
                    (#[trigger] workspaces.deep_view()[i]).workspace.path,
                ),
        },
{
    match resolve_workspace(target, workspaces) {
        Some(workspace) => Some(
            SessionRecord {
                session_id: own(session_id),
                workspace,
                cwd: own(project_dir),
                state,
                updated_at: now,
                pid,
            },
        ),
        None => None,
    }
}

// ---------------------------------------------------------------------------
// The records that count
// ---------------------------------------------------------------------------

/// What sending no signal to a process came to.
#[derive(Debug, Clone, Copy, PartialEq, Eq, Structural)]
pub enum Probe {
    /// The process is there.
    Reached,
    /// It is there, and belongs to someone else.
    Denied,
    /// It is not there.
    Gone,
    /// There is no asking on this system.
    Unknown,
}

/// Whether a process is alive. Where there is no asking, every process counts as
/// alive.
pub fn pid_alive(pid: i32, probe: Probe) -> (r: bool)
    ensures
        r == (probe == Probe::Unknown || (pid > 0 && probe != Probe::Gone)),
{
    match probe {
        Probe::Reached => pid > 0,
        Probe::Denied => pid > 0,
        Probe::Gone => false,
        Probe::Unknown => true,
    }
}

/// Whether a file of the directory of the sessions holds a record.
pub fn is_record_file(path: &str) -> (r: bool)
    ensures
        r == (extension_of(path@) == Some("json"@)),
{
    match extension(path) {
        Some(e) => same(e.as_str(), "json"),
        None => false,
    }
}

/// A file with a record.
#[derive(Debug)]
pub struct Found {
    pub path: String,
    /// The record, where the file holds one that can be read.
    pub record: Option<SessionRecord>,
    /// Whether the process of the record, where it names one, is alive.
    pub alive: bool,
}

/// What a [`Found`] stands for.
#[verifier::ext_equal]
pub struct FoundView {
    pub path: Seq<char>,
    pub record: Option<SessionRecordView>,
    pub alive: bool,
}

impl DeepView for Found {
    type V = FoundView;

    open spec fn deep_view(&self) -> FoundView {
        FoundView {
            path: self.path@,
            record: self.record.deep_view(),
            alive: self.alive,
        }
    }
}

/// A file is deleted that holds no record, or that of a process that is gone, or
/// one that has not been updated for long.
pub open spec fn is_dead(f: FoundView, now: Timestamp) -> bool {
    match f.record {
        None => true,
        Some(rec) => (rec.pid is Some && !f.alive) || (match elapsed(
            now.secs,
            now.nanos,
            rec.updated_at.secs,
            rec.updated_at.nanos,
        ) {
            Some(age) => age > MAX_AGE_SECS,
            None => false,
        }),
    }
}

/// The names of the workspaces.
pub open spec fn names(list: Seq<WorkspaceConfigView>) -> Seq<Seq<char>> {
    list.map_values(|w: WorkspaceConfigView| w.workspace.name)
}

/// The records that count: not dead, and of a workspace that is there.
pub open spec fn active(
    found: Seq<FoundView>,
    names: Seq<Seq<char>>,
    now: Timestamp,
) -> Seq<SessionRecordView>
    decreases found.len(),
{
    if found.len() == 0 {
        Seq::empty()
    } else {
        let rest = active(found.drop_last(), names, now);
        let f = found.last();
        if !is_dead(f, now) && names.contains(f.record->0.workspace) {
            rest.push(f.record->0)
        } else {
            rest
        }
    }
}

/// The files to delete.
pub open spec fn dead(found: Seq<FoundView>, now: Timestamp) -> Seq<Seq<char>>
    decreases found.len(),
{
    if found.len() == 0 {
        Seq::empty()
    } else {
        let rest = dead(found.drop_last(), now);
        if is_dead(found.last(), now) {
            rest.push(found.last().path)
        } else {
            rest
        }
    }
}

/// The names of the workspaces.
pub fn workspace_names(workspaces: &Vec<WorkspaceConfig>) -> (r: Vec<String>)
    ensures
        r.deep_view() == names(workspaces.deep_view()),
{
    let mut out: Vec<String> = Vec::new();
    for i in 0..workspaces.len()
        invariant
            out@.len() == i,
            forall|j: int| 0 <= j < i ==> (#[trigger] out@[j])@ == workspaces@[j].workspace.name@,
    {
        out.push(workspaces[i].workspace.name.clone());
    }
    assert(out.deep_view() =~= names(workspaces.deep_view()));
    out
}

fn dead_file(f: &Found, now: Timestamp) -> (r: bool)
    ensures
        r == is_dead(f.deep_view(), now),
{
    match &f.record {
        None => true,
        Some(rec) => {
            let gone = match rec.pid {
                Some(_) => !f.alive,
                None => false,
            };
            let old = match seconds_between(now, rec.updated_at) {
                Some(age) => age > MAX_AGE_SECS,
                None => false,
            };
            gone || old
        },
    }
}

/// The records that count, and the files to delete. A record of a workspace that
/// is not there is passed over, but its file stays.
pub fn load_active(found: Vec<Found>, workspaces: &Vec<WorkspaceConfig>, now: Timestamp) -> (r: (
    Vec<SessionRecord>,
    Vec<String>,
))
    ensures
        r.0.deep_view() == active(found.deep_view(), names(workspaces.deep_view()), now),
        r.1.deep_view() == dead(found.deep_view(), now),
{
    let known = workspace_names(workspaces);
    let ghost all = found.deep_view();
    let ghost ns = names(workspaces.deep_view());
    let ghost mut k: int = 0;
    let mut rest = found;
    let mut out: Vec<SessionRecord> = Vec::new();
    let mut gone: Vec<String> = Vec::new();
    assert(out.deep_view() =~= active(all.take(0), ns, now));
    assert(gone.deep_view() =~= dead(all.take(0), now));
    assert(all.skip(0) =~= all);
    while rest.len() > 0
        invariant
            0 <= k <= all.len(),
            known.deep_view() == ns,
            rest.deep_view() == all.skip(k),
            out.deep_view() == active(all.take(k), ns, now),
            gone.deep_view() == dead(all.take(k), now),
        decreases rest@.len(),
    {
        let ghost before = rest.deep_view();
        let f = rest.remove(0);
        proof {
            assert(before[0] == f.deep_view());
            assert(before.len() == all.len() - k);
            assert(all.skip(k)[0] == all[k]);
            assert(rest.deep_view() =~= before.skip(1));
            assert(all.skip(k).skip(1) =~= all.skip(k + 1));
            assert(all.take(k + 1).drop_last() =~= all.take(k));
            assert(all.take(k + 1).last() == f.deep_view());
            k = k + 1;
        }
        if dead_file(&f, now) {
            let ghost g = gone.deep_view();
            let Found { path, record: _, alive: _ } = f;
            gone.push(path);
            assert(gone.deep_view() =~= g.push(path@));
        } else if let Some(rec) = f.record {
            if among(&known, rec.workspace.as_str()) {
                let ghost g = out.deep_view();
                let ghost x = rec.deep_view();
                out.push(rec);
                assert(out.deep_view() =~= g.push(x));
            }
        }
    }
    assert(all.take(k) =~= all);
    (out, gone)
}

/// How many records of a workspace are in a state.
pub open spec fn count(
    records: Seq<SessionRecordView>,
    workspace: Seq<char>,
    state: SessionState,
) -> nat
    decreases records.len(),
{
    if records.len() == 0 {
        0
    } else {
        count(records.drop_last(), workspace, state) + (if records.last().workspace == workspace
            && records.last().state == state {
            1nat
        } else {
            0nat
        })
    }
}

/// The state of each workspace that has a record.
pub open spec fn statuses(records: Seq<SessionRecordView>) -> Map<Seq<char>, WorkspaceStatus> {
    Map::new(
        |w: Seq<char>|
            count(records, w, SessionState::Running) + count(records, w, SessionState::Waiting) > 0,
        |w: Seq<char>|
            WorkspaceStatus {
                running: count(records, w, SessionState::Running) as usize,
                waiting: count(records, w, SessionState::Waiting) as usize,
            },
    )
}

proof fn lemma_count_bound(records: Seq<SessionRecordView>, w: Seq<char>)
    ensures
        count(records, w, SessionState::Running) + count(records, w, SessionState::Waiting)
            <= records.len(),
    decreases records.len(),
{
    if records.len() > 0 {
        lemma_count_bound(records.drop_last(), w);
    }
}

/// How many sessions of each workspace run, and how many wait.
pub fn aggregate(records: &Vec<SessionRecord>) -> (r: StringHashMap<WorkspaceStatus>)
    ensures
        r@ == statuses(records.deep_view()),
{
    let ghost v = records.deep_view();
    let mut map: StringHashMap<WorkspaceStatus> = StringHashMap::new();
    proof {
        assert(map@ =~= statuses(v.take(0)));
    }
    for i in 0..records.len()
        invariant
            v == records.deep_view(),
            map@ == statuses(v.take(i as int)),
    {
        let rec = &records[i];
        let ghost t = v.take(i as int);
        let ghost u = v.take(i + 1);
        proof {
            lemma_count_bound(t, rec.workspace@);
            assert(u.drop_last() =~= t);
            assert(u.last() == rec.deep_view());
        }
        let old = match map.get(rec.workspace.as_str()) {
            Some(s) => *s,
            None => WorkspaceStatus::default(),
        };
        assert(old.running == count(t, rec.workspace@, SessionState::Running));
        assert(old.waiting == count(t, rec.workspace@, SessionState::Waiting));
        let new = match rec.state {
            SessionState::Running => WorkspaceStatus {
                running: old.running + 1,
                waiting: old.waiting,
            },
            SessionState::Waiting => WorkspaceStatus {
                running: old.running,
                waiting: old.waiting + 1,
            },
        };
        map.insert(rec.workspace.clone(), new);
        proof {
            assert forall|w: Seq<char>| w != rec.workspace@ implies #[trigger] count(
                u,
                w,
                SessionState::Running,
            ) == count(t, w, SessionState::Running) && count(u, w, SessionState::Waiting) == count(
                t,
                w,
                SessionState::Waiting,
            ) by {}
            assert(map@ =~= statuses(u));
        }
    }
    assert(v.take(v.len() as int) =~= v);
    map
}

/// The state of each workspace that has a record that counts, and the files to
/// delete.
pub fn status_by_workspace(
    found: Vec<Found>,
    workspaces: &Vec<WorkspaceConfig>,
    now: Timestamp,
) -> (r: (StringHashMap<WorkspaceStatus>, Vec<String>))
    ensures
        r.0@ == statuses(active(found.deep_view(), names(workspaces.deep_view()), now)),
        r.1.deep_view() == dead(found.deep_view(), now),
{
    let (records, gone) = load_active(found, workspaces, now);
    (aggregate(&records), gone)
}

/// A workspace with a running session is shown as running, whatever else it has;
/// one with waiting sessions only as waiting.
pub proof fn running_first(records: Seq<SessionRecordView>, workspace: Seq<char>)
    requires
        records.len() <= usize::MAX,
    ensures
        count(records, workspace, SessionState::Running) > 0 ==> statuses(records).contains_key(
            workspace,
        ) && statuses(records)[workspace].shown() == Some(SessionState::Running),
        count(records, workspace, SessionState::Running) == 0 && count(
            records,
            workspace,
            SessionState::Waiting,
        ) > 0 ==> statuses(records).contains_key(workspace) && statuses(records)[workspace].shown()
            == Some(SessionState::Waiting),
        count(records, workspace, SessionState::Running) + count(
            records,
            workspace,
            SessionState::Waiting,
        ) == 0 ==> !statuses(records).contains_key(workspace),
{
    lemma_count_bound(records, workspace);
}

// ---------------------------------------------------------------------------
// The hooks that report
// ---------------------------------------------------------------------------

/// The events that a hook is set up for, each with the word that it reports.
pub open spec fn hook_events() -> Seq<(Seq<char>, Seq<char>)> {
    seq![
        ("SessionStart"@, "session-start"@),
        ("UserPromptSubmit"@, "prompt-submit"@),
        ("Stop"@, "stop"@),
        ("Notification"@, "notification"@),
        ("SessionEnd"@, "session-end"@),
    ]
}

/// The path of this program, for the commands of hooks: the one that cargo
/// installed, else the one that `which` finds, else its bare name.
pub fn resolve_cutter_cli(installed: Option<String>, which: Option<Output>) -> (r: String)
    ensures
        r@ == (match (installed.deep_view(), which) {
            (Some(p), _) => p,
            (None, Some(o)) => match answer(o@) {
                Some(p) => p,
                None => "cutter"@,
            },
            (None, None) => "cutter"@,
        }),
{
    if let Some(p) = installed {
        return p;
    }
    if let Some(o) = which {
        if o.success {
            let path = trim(o.stdout.as_str());
            let cs = chars_of(path.as_str());
            if cs.len() > 0 {
                return path;
            }
        }
    }
    own("cutter")
}

/// The command of a hook that reports `arg`.
pub open spec fn hook_command(cutter: Seq<char>, arg: Seq<char>) -> Seq<char> {
    cutter + " session-event "@ + arg + " --ppid $PPID"@
}

/// What is added to the hooks of an event.
pub open spec fn hook_group(cutter: Seq<char>, arg: Seq<char>) -> JsonView {
    JsonView::Object(
        seq![
            (
                "hooks"@,
                JsonView::Array(
                    seq![
                        JsonView::Object(
                            seq![
                                ("command"@, JsonView::Text(hook_command(cutter, arg))),
                                ("type"@, JsonView::Text("command"@)),
                            ],
                        ),
                    ],
                ),
            ),
        ],
    )
}

/// Whether a hook reports to this program.
pub open spec fn reports(hook: JsonView) -> bool {
    match hook.get("command"@) {
        Some(c) => match c.text() {
            Some(t) => occurs(t, "session-event"@),
            None => false,
        },
        None => false,
    }
}

/// The hooks of a group.
pub open spec fn group_hooks(group: JsonView) -> Seq<JsonView> {
    match group.get("hooks"@) {
        Some(h) => h.items(),
        None => Seq::empty(),
    }
}

/// Whether a hook of a group reports to this program.
pub open spec fn group_reports(group: JsonView) -> bool {
    exists|k: int| 0 <= k < group_hooks(group).len() && reports(#[trigger] group_hooks(group)[k])
}

/// Whether a hook of an event reports to this program.
pub open spec fn has_report(event: JsonView) -> bool {
    exists|i: int| 0 <= i < event.items().len() && group_reports(#[trigger] event.items()[i])
}

/// The groups of an event.
pub open spec fn groups(hooks: Fields, event: Seq<char>) -> Seq<JsonView> {
    match entry(hooks, event) {
        Some(e) => e.items(),
        None => Seq::empty(),
    }
}

/// Whether an event has no hook that reports.
pub open spec fn missing(hooks: Fields, event: Seq<char>) -> bool {
    match entry(hooks, event) {
        Some(e) => !has_report(e),
        None => true,
    }
}

/// The hooks with one that reports for an event, where there was none.
pub open spec fn with_hook(
    hooks: Fields,
    event: (Seq<char>, Seq<char>),
    cutter: Seq<char>,
) -> Fields {
    if missing(hooks, event.0) {
        put(
            hooks,
            event.0,
            JsonView::Array(groups(hooks, event.0).push(hook_group(cutter, event.1))),
        )
    } else {
        hooks
    }
}

/// The hooks with one that reports for each of the events.
pub open spec fn with_hooks(
    hooks: Fields,
    events: Seq<(Seq<char>, Seq<char>)>,
    cutter: Seq<char>,
) -> Fields
    decreases events.len(),
{
    if events.len() == 0 {
        hooks
    } else {
        with_hooks(with_hook(hooks, events[0], cutter), events.skip(1), cutter)
    }
}

/// Whether one of the events has no hook that reports.
pub open spec fn lacking(hooks: Fields, events: Seq<(Seq<char>, Seq<char>)>) -> bool {
    exists|i: int| 0 <= i < events.len() && missing(hooks, (#[trigger] events[i]).0)
}

/// The fields of a settings file, none where it is no object.
pub open spec fn settings_fields(text: Option<Seq<char>>) -> Fields {
    match text {
        Some(t) => match parsed_json(t) {
            Ok(j) => j.fields(),
            Err(_) => Seq::empty(),
        },
        None => Seq::empty(),
    }
}

/// The hooks among the settings.
pub open spec fn hooks_of(settings: Fields) -> Fields {
    match entry(settings, "hooks"@) {
        Some(h) => h.fields(),
        None => Seq::empty(),
    }
}

/// The settings with the hooks set up.
pub open spec fn hooked(settings: Fields, cutter: Seq<char>) -> JsonView {
    JsonView::Object(
        put(
            settings,
            "hooks"@,
            JsonView::Object(with_hooks(hooks_of(settings), hook_events(), cutter)),
        ),
    )
}

/// The text to write for the hooks to be set up, none where they are.
pub open spec fn hooks_file(text: Option<Seq<char>>, cutter: Seq<char>) -> Result<
    Option<Seq<char>>,
    ErrorView,
> {
    let f = settings_fields(text);
    if lacking(hooks_of(f), hook_events()) {
        match file_of(hooked(f, cutter)) {
            Ok(t) => Ok(Some(t)),
            Err(e) => Err(e),
        }
    } else {
        Ok(None)
    }
}

/// What a file holds after this text, if any, has been written into it.
pub open spec fn left_behind(
    before: Option<&str>,
    written: Result<Option<String>, Error>,
) -> Option<Seq<char>> {
    match (written, before) {
        (Ok(Some(t)), _) => Some(t@),
        (_, Some(t)) => Some(t@),
        (_, None) => None,
    }
}

fn hook_reports(hook: &Json) -> (r: bool)
    ensures
        r == reports(hook@),
{
    match hook.get("command") {
        Some(c) => match c.text() {
            Some(t) => contains(t.as_str(), "session-event"),
            None => false,
        },
        None => false,
    }
}

/// Whether a hook of an event reports to this program.
pub fn has_cutter_hook(event: &Json) -> (r: bool)
    ensures
        r == has_report(event@),
{
    if let Some(list) = event.items() {
        let ghost v = event@.items();
        assert(v == list.deep_view());
        for i in 0..list.len()
            invariant
                v == event@.items(),
                v == list.deep_view(),
                forall|j: int| 0 <= j < i ==> !group_reports(#[trigger] v[j]),
        {
            let ghost g = v[i as int];
            assert(g == list@[i as int]@);
            if let Some(h) = list[i].get("hooks") {
                if let Some(hooks) = h.items() {
                    let ghost w = group_hooks(g);
                    assert(w == hooks.deep_view());
                    for k in 0..hooks.len()
                        invariant
                            v == event@.items(),
                            0 <= i < v.len(),
                            g == v[i as int],
                            w == group_hooks(g),
                            w == hooks.deep_view(),
                            forall|j: int| 0 <= j < k ==> !reports(#[trigger] w[j]),
                    {
                        assert(w[k as int] == hooks@[k as int]@);
                        if hook_reports(&hooks[k]) {
                            assert(reports(group_hooks(g)[k as int]));
                            assert(group_reports(v[i as int]));
                            return true;
                        }
                    }
                }
            }
            assert(!group_reports(g));
        }
    }
    false
}

/// What is added to the hooks of an event, as a document.
fn hook_group_json(cutter: &str, arg: &str) -> (r: Json)
    ensures
        r@ == hook_group(cutter@, arg@),
        well_formed(r@),
{
    let head = cat3(cutter, " session-event ", arg);
    let command = cat(head.as_str(), " --ppid $PPID");
    let ghost c = JsonView::Text(command@);
    let mut hook: Vec<(String, Json)> = Vec::new();
    hook.push((own("command"), Json::Text(command)));
    hook.push((own("type"), Json::Text(own("command"))));
    assert(hook.deep_view() =~= seq![("command"@, c), ("type"@, JsonView::Text("command"@))]);
    proof {
        lemma_object_view(hook);
        reveal_strlit("command");
        reveal_strlit("type");
        assert(crate::text::less("command"@, "type"@));
        assert(ordered(hook.deep_view()));
        reveal_with_fuel(well_formed, 2);
    }
    let inner = Json::Object(hook);
    assert(well_formed(inner@));
    let ghost i = inner@;
    let mut list: Vec<Json> = Vec::new();
    list.push(inner);
    assert(list.deep_view() =~= seq![i]);
    proof {
        lemma_array_view(list);
    }
    let array = Json::Array(list);
    assert(well_formed(array@));
    let ghost a = array@;
    let mut group: Vec<(String, Json)> = Vec::new();
    group.push((own("hooks"), array));
    assert(group.deep_view() =~= seq![("hooks"@, a)]);
    proof {
        lemma_object_view(group);
    }
    Json::Object(group)
}

/// Sets a hook up that reports for an event, where there is none. Says whether
/// it did.
fn install_hook(hooks: &mut Vec<(String, Json)>, event: &str, arg: &str, cutter: &str) -> (r: bool)
    requires
        fields_wf(old(hooks).deep_view()),
    ensures
        r == missing(old(hooks).deep_view(), event@),
        final(hooks).deep_view() == with_hook(
            old(hooks).deep_view(),
            (event@, arg@),
            cutter@,
        ),
        fields_wf(final(hooks).deep_view()),
{
    let ghost h = hooks.deep_view();
    let mut list: Vec<Json> = Vec::new();
    assert(list.deep_view() =~= Seq::<JsonView>::empty());
    if let Some(i) = find_entry(hooks, event) {
        if has_cutter_hook(&hooks[i].1) {
            return false;
        }
        proof {
            assert(h[i as int] == (hooks@[i as int].0@, hooks@[i as int].1@));
            assert(well_formed(h[i as int].1));
            put_without(h, event@, JsonView::Array(groups(h, event@).push(hook_group(cutter@, arg@))));
            remove_law(h, event@, JsonView::Null, event@);
        }
        let e = hooks.remove(i);
        assert(hooks.deep_view() =~= h.remove(i as int));
        if let Json::Array(items) = e.1 {
            proof {
                lemma_array_view(items);
            }
            list = items;
        }
        proof {
            assert forall|k: int| 0 <= k < hooks.deep_view().len() implies well_formed(
                (#[trigger] hooks.deep_view()[k]).1,
            ) by {
                if k < i {
                    assert(hooks.deep_view()[k] == h[k]);
                } else {
                    assert(hooks.deep_view()[k] == h[k + 1]);
                }
            }
        }
    }
    assert(list.deep_view() =~= groups(h, event@));
    let ghost old_groups = list.deep_view();
    let group = hook_group_json(cutter, arg);
    let ghost g = group@;
    list.push(group);
    assert(list.deep_view() =~= old_groups.push(g));
    proof {
        lemma_array_view(list);
        if let Some(e) = entry(h, event@) {
            crate::table::lemma_entry_in(h, event@);
            let k = choose|k: int| 0 <= k < h.len() && #[trigger] h[k] == (event@, e);
            assert(well_formed(h[k].1));
        }
        assert forall|k: int| 0 <= k < old_groups.push(g).len() implies well_formed(
            #[trigger] old_groups.push(g)[k],
        ) by {
            if k < old_groups.len() {
                assert(old_groups.push(g)[k] == old_groups[k]);
            }
        }
    }
    let array = Json::Array(list);
    proof {
        assert(well_formed(array@));
        lemma_put_wf(hooks.deep_view(), event@, array@);
    }
    put_entry(hooks, own(event), array);
    true
}

/// The settings with the hooks set up, none where they are.
pub fn set_up_hooks(settings: Vec<(String, Json)>, cutter: &str) -> (r: Option<Json>)
    requires
        fields_wf(settings.deep_view()),
    ensures
        match r {
            Some(j) => lacking(hooks_of(settings.deep_view()), hook_events()) && j@ == hooked(
                settings.deep_view(),
                cutter@,
            ) && well_formed(j@),
            None => !lacking(hooks_of(settings.deep_view()), hook_events()),
        },
{
    let ghost f = settings.deep_view();
    let mut root = settings;
    let mut hooks: Vec<(String, Json)> = Vec::new();
    assert(hooks.deep_view() =~= Seq::<(Seq<char>, JsonView)>::empty());
    if let Some(i) = find_entry(&root, "hooks") {
        proof {
            assert(f[i as int] == (root@[i as int].0@, root@[i as int].1@));
            assert(well_formed(f[i as int].1));
            lemma_part_wf(f[i as int].1, "hooks"@);
            remove_law(f, "hooks"@, JsonView::Null, "hooks"@);
        }
        let e = root.remove(i);
        assert(root.deep_view() =~= f.remove(i as int));
        hooks = e.1.into_fields();
        proof {
            assert forall|k: int| 0 <= k < root.deep_view().len() implies well_formed(
                (#[trigger] root.deep_view()[k]).1,
            ) by {
                if k < i {
                    assert(root.deep_view()[k] == f[k]);
                } else {
                    assert(root.deep_view()[k] == f[k + 1]);
                }
            }
        }
    }
    let ghost h = hooks.deep_view();
    assert(h == hooks_of(f));
    assert(fields_wf(root.deep_view()));
    assert forall|v: JsonView| put(root.deep_view(), "hooks"@, v) == #[trigger] put(f, "hooks"@, v) by {
        put_without(f, "hooks"@, v);
    }
    let a = install_hook(&mut hooks, "SessionStart", "session-start", cutter);
    let ghost h1 = hooks.deep_view();
    let b = install_hook(&mut hooks, "UserPromptSubmit", "prompt-submit", cutter);
    let ghost h2 = hooks.deep_view();
    let c = install_hook(&mut hooks, "Stop", "stop", cutter);
    let ghost h3 = hooks.deep_view();
    let d = install_hook(&mut hooks, "Notification", "notification", cutter);
    let ghost h4 = hooks.deep_view();
    let e = install_hook(&mut hooks, "SessionEnd", "session-end", cutter);
    let ghost h5 = hooks.deep_view();
    let ghost events = hook_events();
    proof {
        lemma_events_differ();
        lemma_five(h, cutter@);
        lemma_missing_later(h, events, 0, cutter@);
        lemma_missing_later(h, events, 1, cutter@);
        lemma_missing_later(h, events, 2, cutter@);
        lemma_missing_later(h, events, 3, cutter@);
        lemma_missing_later(h, events, 4, cutter@);
        assert(a == missing(h, events[0].0));
        assert(b == missing(h, events[1].0));
        assert(c == missing(h, events[2].0));
        assert(d == missing(h, events[3].0));
        assert(e == missing(h, events[4].0));
    }
    if a || b || c || d || e {
        assert(lacking(h, events));
        proof {
            lemma_object_view(hooks);
        }
        let inner = Json::Object(hooks);
        proof {
            assert(well_formed(inner@));
            lemma_put_wf(root.deep_view(), "hooks"@, inner@);
        }
        put_entry(&mut root, own("hooks"), inner);
        proof {
            lemma_object_view(root);
            assert(Json::Object(root)@ == hooked(f, cutter@));
        }
        Some(Json::Object(root))
    } else {
        assert(!lacking(h, events)) by {
            if lacking(h, events) {
                let i = choose|i: int| 0 <= i < events.len() && missing(h, (#[trigger] events[i]).0);
                assert(i == 0 || i == 1 || i == 2 || i == 3 || i == 4);
            }
        }
        None
    }
}

/// The settings file of a workspace, where the hooks are set up.
pub fn settings_path(who: &Assistant, workspace_dir: &str) -> (r: String)
    ensures
        r@ == joined_path(joined_path(workspace_dir@, who@.dir), "settings.local.json"@),
{
    let dir = join_path(workspace_dir, who.dir.as_str());
    join_path(dir.as_str(), "settings.local.json")
}

/// The text to write into the settings file of a workspace for the hooks to be
/// set up, none where they are. `existing` is what the file holds, where there
/// is one. Everything else in it stays, and a second call finds nothing to do.
pub fn ensure_hooks(existing: Option<&str>, cutter: &str) -> (r: Result<Option<String>, Error>)
    ensures
        outcome(r) == hooks_file(
            match existing {
                Some(t) => Some(t@),
                None => None,
            },
            cutter@,
        ),
        r is Ok,
        forall|other: Seq<char>|
            #[trigger] hooks_file(left_behind(existing, r), other) == Ok::<
                Option<Seq<char>>,
                ErrorView,
            >(None),
{
    let ghost text = match existing {
        Some(t) => Some(t@),
        None => None,
    };
    let ghost f = settings_fields(text);
    let root: Vec<(String, Json)> = match existing {
        Some(t) => match parse_json(t) {
            Ok(j) => {
                proof {
                    lemma_part_wf(j@, "hooks"@);
                    if j@ is Object {
                        assert(JsonView::Object(j@.fields()) == j@);
                    }
                }
                j.into_fields()
            },
            Err(_) => Vec::new(),
        },
        None => Vec::new(),
    };
    assert(root.deep_view() =~= f);
    assert(shallow(JsonView::Object(f), MAX_NESTING as nat));
    assert(fields_wf(f));
    match set_up_hooks(root, cutter) {
        Some(j) => match write_document(j) {
            Ok(t) => {
                proof {
                    hooks_law(f, cutter@, "hooks"@);
                    lemma_hooked_shallow(f, cutter@);
                    lemma_alike_lacking(hooked(f, cutter@).fields(), settings_fields(Some(t@)));
                }
                Ok(Some(t))
            },
            Err(e) => Err(e),
        },
        None => Ok(None),
    }
}

/// The events have different names.
proof fn lemma_events_differ()
    ensures
        forall|i: int, j: int|
            0 <= i < j < hook_events().len() ==> (#[trigger] hook_events()[i]).0 != (
            #[trigger] hook_events()[j]).0,
{
    reveal_strlit("SessionStart");
    reveal_strlit("UserPromptSubmit");
    reveal_strlit("Stop");
    reveal_strlit("Notification");
    reveal_strlit("SessionEnd");
    let e = hook_events();
    assert(e[0].0.len() == 12 && e[1].0.len() == 16 && e[2].0.len() == 4 && e[3].0.len() == 12
        && e[4].0.len() == 10);
    assert(e[0].0[0] == 'S' && e[3].0[0] == 'N');
}

/// The hooks after the first `i` events.
spec fn after_events(h: Fields, events: Seq<(Seq<char>, Seq<char>)>, i: nat, cutter: Seq<char>) -> Fields
    decreases i,
{
    if i == 0 {
        h
    } else {
        with_hook(after_events(h, events, (i - 1) as nat, cutter), events[i - 1], cutter)
    }
}

proof fn lemma_five(h: Fields, cutter: Seq<char>)
    ensures
        with_hooks(h, hook_events(), cutter) == after_events(h, hook_events(), 5, cutter),
        after_events(h, hook_events(), 0, cutter) == h,
        after_events(h, hook_events(), 1, cutter) == with_hook(h, hook_events()[0], cutter),
        after_events(h, hook_events(), 2, cutter) == with_hook(
            after_events(h, hook_events(), 1, cutter),
            hook_events()[1],
            cutter,
        ),
        after_events(h, hook_events(), 3, cutter) == with_hook(
            after_events(h, hook_events(), 2, cutter),
            hook_events()[2],
            cutter,
        ),
        after_events(h, hook_events(), 4, cutter) == with_hook(
            after_events(h, hook_events(), 3, cutter),
            hook_events()[3],
            cutter,
        ),
        after_events(h, hook_events(), 5, cutter) == with_hook(
            after_events(h, hook_events(), 4, cutter),
            hook_events()[4],
            cutter,
        ),
{
    let e = hook_events();
    reveal_with_fuel(with_hooks, 6);
    reveal_with_fuel(after_events, 6);
    assert(e.skip(1)[0] == e[1]);
    assert(e.skip(1).skip(1)[0] == e[2]);
    assert(e.skip(1).skip(1).skip(1)[0] == e[3]);
    assert(e.skip(1).skip(1).skip(1).skip(1)[0] == e[4]);
}

/// Setting up one hook leaves the other events as they are.
proof fn lemma_hook_frame(
    h: Fields,
    event: (Seq<char>, Seq<char>),
    cutter: Seq<char>,
    other: Seq<char>,
)
    requires
        ordered(h),
    ensures
        ordered(with_hook(h, event, cutter)),
        other != event.0 ==> entry(with_hook(h, event, cutter), other) == entry(h, other),
        !missing(with_hook(h, event, cutter), event.0),
        groups(h, event.0).is_prefix_of(groups(with_hook(h, event, cutter), event.0)),
{
    let g = hook_group(cutter, event.1);
    let v = groups(h, event.0).push(g);
    put_law(h, event.0, JsonView::Array(v), other);
    if missing(h, event.0) {
        lemma_group_reports(cutter, event.1);
        assert(v[v.len() - 1] == g);
        assert(JsonView::Array(v).items() == v);
        assert(group_reports(JsonView::Array(v).items()[v.len() - 1]));
        assert(has_report(JsonView::Array(v)));
        assert(groups(h, event.0) =~= v.take(groups(h, event.0).len() as int));
    }
}

proof fn lemma_group_reports(cutter: Seq<char>, arg: Seq<char>)
    ensures
        group_reports(hook_group(cutter, arg)),
{
    let c = hook_command(cutter, arg);
    reveal_strlit(" session-event ");
    reveal_strlit("session-event");
    let n = cutter.len() as int + 1;
    assert(c.subrange(n, n + "session-event"@.len()) =~= "session-event"@);
    assert(occurs_at(c, "session-event"@, n));
    let g = hook_group(cutter, arg);
    let hook = JsonView::Object(
        seq![("command"@, JsonView::Text(c)), ("type"@, JsonView::Text("command"@))],
    );
    assert(entry(g->Object_0, "hooks"@) == Some(JsonView::Array(seq![hook])));
    assert(group_hooks(g)[0] == hook);
    assert(reports(hook));
}

proof fn lemma_missing_later(
    h: Fields,
    events: Seq<(Seq<char>, Seq<char>)>,
    i: nat,
    cutter: Seq<char>,
)
    requires
        ordered(h),
        i < events.len(),
        forall|a: int, b: int|
            0 <= a < b < events.len() ==> (#[trigger] events[a]).0 != (#[trigger] events[b]).0,
    ensures
        missing(after_events(h, events, i, cutter), events[i as int].0) == missing(
            h,
            events[i as int].0,
        ),
{
    lemma_entry_later(h, events, i, i as int, cutter);
}

/// The first `i` events leave a later one as it is.
proof fn lemma_entry_later(
    h: Fields,
    events: Seq<(Seq<char>, Seq<char>)>,
    i: nat,
    k: int,
    cutter: Seq<char>,
)
    requires
        ordered(h),
        i <= k < events.len(),
        forall|a: int, b: int|
            0 <= a < b < events.len() ==> (#[trigger] events[a]).0 != (#[trigger] events[b]).0,
    ensures
        ordered(after_events(h, events, i, cutter)),
        entry(after_events(h, events, i, cutter), events[k].0) == entry(h, events[k].0),
    decreases i,
{
    if i > 0 {
        lemma_entry_later(h, events, (i - 1) as nat, k, cutter);
        lemma_hook_frame(
            after_events(h, events, (i - 1) as nat, cutter),
            events[i - 1],
            cutter,
            events[k].0,
        );
    }
}

proof fn lemma_with_hooks(h: Fields, events: Seq<(Seq<char>, Seq<char>)>, cutter: Seq<char>, key: Seq<char>)
    requires
        ordered(h),
    ensures
        ordered(with_hooks(h, events, cutter)),
        (forall|i: int| 0 <= i < events.len() ==> (#[trigger] events[i]).0 != key) ==> entry(
            with_hooks(h, events, cutter),
            key,
        ) == entry(h, key),
        (exists|i: int| 0 <= i < events.len() && (#[trigger] events[i]).0 == key) || !missing(h, key)
            ==> !missing(with_hooks(h, events, cutter), key),
        groups(h, key).is_prefix_of(groups(with_hooks(h, events, cutter), key)),
    decreases events.len(),
{
    if events.len() > 0 {
        let n = with_hook(h, events[0], cutter);
        let t = events.skip(1);
        lemma_hook_frame(h, events[0], cutter, key);
        lemma_with_hooks(n, t, cutter, key);
        assert(forall|i: int| 0 <= i < t.len() ==> #[trigger] t[i] == events[i + 1]);
        if exists|i: int| 0 <= i < events.len() && (#[trigger] events[i]).0 == key {
            let i = choose|i: int| 0 <= i < events.len() && (#[trigger] events[i]).0 == key;
            if i > 0 {
                assert(t[i - 1].0 == key);
            }
        }
        if forall|i: int| 0 <= i < events.len() ==> (#[trigger] events[i]).0 != key {
            assert(events[0].0 != key);
        }
        if events[0].0 == key {
            assert(!missing(n, key));
        }
    }
}

/// Setting up one hook leaves the hooks nested no deeper.
proof fn lemma_hook_shallow(
    h: Fields,
    event: (Seq<char>, Seq<char>),
    cutter: Seq<char>,
    depth: nat,
)
    requires
        ordered(h),
        fields_shallow(h, depth),
        depth >= 4,
    ensures
        ordered(with_hook(h, event, cutter)),
        fields_shallow(with_hook(h, event, cutter), depth),
{
    lemma_hook_frame(h, event, cutter, event.0);
    let old_groups = groups(h, event.0);
    let g = hook_group(cutter, event.1);
    let below = (depth - 1) as nat;
    reveal_with_fuel(shallow, 4);
    assert(shallow(g, below));
    if entry(h, event.0) is Some {
        crate::table::lemma_entry_in(h, event.0);
        let i = choose|i: int|
            0 <= i < h.len() && #[trigger] h[i] == (event.0, entry(h, event.0)->0);
        assert(shallow(h[i].1, depth));
    }
    assert(forall|i: int| 0 <= i < old_groups.len() ==> shallow(#[trigger] old_groups[i], below));
    let v = old_groups.push(g);
    assert(forall|i: int| 0 <= i < v.len() ==> shallow(#[trigger] v[i], below));
    assert(shallow(JsonView::Array(v), depth));
    lemma_put_shallow(h, event.0, JsonView::Array(v), depth);
}

proof fn lemma_hooks_shallow(
    h: Fields,
    events: Seq<(Seq<char>, Seq<char>)>,
    cutter: Seq<char>,
    depth: nat,
)
    requires
        ordered(h),
        fields_shallow(h, depth),
        depth >= 4,
    ensures
        fields_shallow(with_hooks(h, events, cutter), depth),
    decreases events.len(),
{
    if events.len() > 0 {
        lemma_hook_shallow(h, events[0], cutter, depth);
        lemma_hooks_shallow(with_hook(h, events[0], cutter), events.skip(1), cutter, depth);
    }
}

/// Settings that could be read can be read again with the hooks in them.
proof fn lemma_hooked_shallow(settings: Fields, cutter: Seq<char>)
    requires
        fields_wf(settings),
        shallow(JsonView::Object(settings), MAX_NESTING as nat),
    ensures
        shallow(hooked(settings, cutter), MAX_NESTING as nat),
{
    let h = hooks_of(settings);
    lemma_fields_shallow(settings, 126);
    if entry(settings, "hooks"@) is Some {
        crate::table::lemma_entry_in(settings, "hooks"@);
        let i = choose|i: int|
            0 <= i < settings.len() && #[trigger] settings[i] == (
                "hooks"@,
                entry(settings, "hooks"@)->0,
            );
        assert(shallow(settings[i].1, 126));
        assert(well_formed(settings[i].1));
    }
    assert(fields_shallow(h, 125));
    lemma_hooks_shallow(h, hook_events(), cutter, 125);
    let n = with_hooks(h, hook_events(), cutter);
    assert(shallow(JsonView::Object(n), 126));
    assert(fields_shallow(settings, 126));
    lemma_put_shallow(settings, "hooks"@, JsonView::Object(n), 126);
}

/// Events that are alike have hooks that report or have none.
proof fn lemma_alike_report(a: JsonView, b: JsonView)
    requires
        alike(a, b),
        has_report(a),
    ensures
        has_report(b),
{
    let i = choose|i: int| 0 <= i < a.items().len() && group_reports(#[trigger] a.items()[i]);
    let (g, h) = (a.items()[i], b.items()[i]);
    assert(alike(g, h));
    let k = choose|k: int| 0 <= k < group_hooks(g).len() && reports(#[trigger] group_hooks(g)[k]);
    lemma_alike_entry(g->Object_0, h->Object_0, "hooks"@);
    let (x, y) = (group_hooks(g)[k], group_hooks(h)[k]);
    assert(alike(g.get("hooks"@)->0, h.get("hooks"@)->0));
    assert(alike(x, y));
    lemma_alike_entry(x->Object_0, y->Object_0, "command"@);
    assert(reports(y));
    assert(group_reports(h));
}

/// Settings that are alike lack the same hooks.
proof fn lemma_alike_lacking(f: Fields, g: Fields)
    requires
        alike(JsonView::Object(f), JsonView::Object(g)),
        !lacking(hooks_of(f), hook_events()),
    ensures
        !lacking(hooks_of(g), hook_events()),
{
    let events = hook_events();
    lemma_alike_entry(f, g, "hooks"@);
    assert(!missing(hooks_of(f), events[0].0));
    let (a, b) = (entry(f, "hooks"@)->0, entry(g, "hooks"@)->0);
    assert forall|i: int| 0 <= i < events.len() implies !missing(
        hooks_of(g),
        (#[trigger] events[i]).0,
    ) by {
        assert(!missing(hooks_of(f), events[i].0));
        lemma_alike_entry(a->Object_0, b->Object_0, events[i].0);
        lemma_alike_report(
            entry(hooks_of(f), events[i].0)->0,
            entry(hooks_of(g), events[i].0)->0,
        );
    }
}

/// What an event has once the hooks are set up: the groups that it had and one
/// more where none of them reports, else what it had.
pub open spec fn event_hooked(
    hooks: Fields,
    event: (Seq<char>, Seq<char>),
    cutter: Seq<char>,
) -> Option<JsonView> {
    if missing(hooks, event.0) {
        Some(JsonView::Array(groups(hooks, event.0).push(hook_group(cutter, event.1))))
    } else {
        entry(hooks, event.0)
    }
}

/// Each event gets its own hook, and no other.
proof fn lemma_event_hooked(
    h: Fields,
    events: Seq<(Seq<char>, Seq<char>)>,
    cutter: Seq<char>,
    i: int,
)
    requires
        ordered(h),
        0 <= i < events.len(),
        forall|a: int, b: int|
            0 <= a < b < events.len() ==> (#[trigger] events[a]).0 != (#[trigger] events[b]).0,
    ensures
        entry(with_hooks(h, events, cutter), events[i].0) == event_hooked(h, events[i], cutter),
    decreases events.len(),
{
    let key = events[i].0;
    let n = with_hook(h, events[0], cutter);
    let t = events.skip(1);
    lemma_hook_frame(h, events[0], cutter, key);
    assert(forall|k: int| 0 <= k < t.len() ==> #[trigger] t[k] == events[k + 1]);
    if i == 0 {
        lemma_with_hooks(n, t, cutter, key);
        put_law(
            h,
            key,
            JsonView::Array(groups(h, key).push(hook_group(cutter, events[0].1))),
            key,
        );
    } else {
        assert(events[0].0 != key);
        assert(t[i - 1] == events[i]);
        lemma_event_hooked(n, t, cutter, i - 1);
    }
}

/// Setting the hooks up leaves every other setting as it is, and every other
/// event. Each of the events that are reported keeps the groups that it had, and
/// gets one more exactly where none of them reports; and afterwards no hook is
/// missing.
pub proof fn hooks_law(settings: Fields, cutter: Seq<char>, key: Seq<char>)
    requires
        fields_wf(settings),
    ensures
        key != "hooks"@ ==> hooked(settings, cutter).get(key) == entry(settings, key),
        !lacking(hooks_of(hooked(settings, cutter).fields()), hook_events()),
        groups(hooks_of(settings), key).is_prefix_of(
            groups(hooks_of(hooked(settings, cutter).fields()), key),
        ),
        forall|i: int|
            0 <= i < hook_events().len() ==> entry(
                hooks_of(hooked(settings, cutter).fields()),
                (#[trigger] hook_events()[i]).0,
            ) == event_hooked(hooks_of(settings), hook_events()[i], cutter),
        (forall|i: int| 0 <= i < hook_events().len() ==> (#[trigger] hook_events()[i]).0 != key)
            ==> entry(hooks_of(hooked(settings, cutter).fields()), key) == entry(
            hooks_of(settings),
            key,
        ),
{
    let h = hooks_of(settings);
    let events = hook_events();
    let n = with_hooks(h, events, cutter);
    if entry(settings, "hooks"@) is Some {
        crate::table::lemma_entry_in(settings, "hooks"@);
        let i = choose|i: int|
            0 <= i < settings.len() && #[trigger] settings[i] == (
                "hooks"@,
                entry(settings, "hooks"@)->0,
            );
        assert(well_formed(settings[i].1));
    }
    assert(ordered(h));
    put_law(settings, "hooks"@, JsonView::Object(n), key);
    assert(hooks_of(hooked(settings, cutter).fields()) == n);
    lemma_with_hooks(h, events, cutter, key);
    lemma_events_differ();
    assert forall|i: int| 0 <= i < events.len() implies entry(n, (#[trigger] events[i]).0)
        == event_hooked(h, events[i], cutter) by {
        lemma_event_hooked(h, events, cutter, i);
    }
    assert forall|i: int| 0 <= i < events.len() implies !missing(n, (#[trigger] events[i]).0) by {
        lemma_with_hooks(h, events, cutter, events[i].0);
    }
}

// ---------------------------------------------------------------------------
// What the records say
// ---------------------------------------------------------------------------

/// The command of a hook runs this program with the word of the event, and hands
/// it the process that the hook runs in.
pub proof fn command_words(cutter: Seq<char>, arg: Seq<char>)
    requires
        cutter.len() > 0,
        arg.len() > 0,
        forall|i: int| 0 <= i < cutter.len() ==> !is_sep(#[trigger] cutter[i], false),
        forall|i: int| 0 <= i < arg.len() ==> !is_sep(#[trigger] arg[i], false),
    ensures
        words_of(hook_command(cutter, arg), false) == seq![
            cutter,
            "session-event"@,
            arg,
            "--ppid"@,
            "$PPID"@,
        ],
{
    reveal_strlit(" session-event ");
    reveal_strlit("session-event");
    reveal_strlit(" --ppid $PPID");
    reveal_strlit("--ppid");
    reveal_strlit("$PPID");
    let none: Seq<Seq<char>> = Seq::empty();
    let e = "$PPID"@;
    let d = "--ppid"@;
    let b = "session-event"@;
    let nil: Seq<char> = Seq::empty();
    assert(words_of(nil, false) == none);
    first_word(e, nil);
    assert(e + nil =~= e);
    assert(words_of(e, false) =~= seq![e]);
    let s4 = d + (seq![' '] + e);
    first_word(d, e);
    let s3 = arg + (seq![' '] + s4);
    first_word(arg, s4);
    let s2 = b + (seq![' '] + s3);
    first_word(b, s3);
    let s1 = cutter + (seq![' '] + s2);
    first_word(cutter, s2);
    assert(hook_command(cutter, arg) =~= s1);
    assert(words_of(s1, false) =~= seq![cutter, b, arg, d, e]);
}

/// A record counts exactly where it can be read, its process is not known to be
/// gone, it is not older than a day, and its workspace is there.
pub proof fn active_records(
    found: Seq<FoundView>,
    names: Seq<Seq<char>>,
    now: Timestamp,
    r: SessionRecordView,
)
    ensures
        active(found, names, now).contains(r) <==> exists|i: int|
            0 <= i < found.len() && (#[trigger] found[i]).record == Some(r) && (r.pid is None
                || found[i].alive) && names.contains(r.workspace) && (match elapsed(
                now.secs,
                now.nanos,
                r.updated_at.secs,
                r.updated_at.nanos,
            ) {
                Some(age) => age <= 24 * 60 * 60,
                None => true,
            }),
    decreases found.len(),
{
    if found.len() > 0 {
        let t = found.drop_last();
        let all = active(found, names, now);
        let rest = active(t, names, now);
        active_records(t, names, now, r);
        if rest.contains(r) {
            let k = choose|k: int| 0 <= k < rest.len() && rest[k] == r;
            assert(all[k] == r);
            let i = choose|i: int|
                0 <= i < t.len() && (#[trigger] t[i]).record == Some(r) && (r.pid is None
                    || t[i].alive) && names.contains(r.workspace) && (match elapsed(
                    now.secs,
                    now.nanos,
                    r.updated_at.secs,
                    r.updated_at.nanos,
                ) {
                    Some(age) => age <= 24 * 60 * 60,
                    None => true,
                });
            assert(found[i] == t[i]);
        }
        if all.contains(r) && !rest.contains(r) {
            let k = choose|k: int| 0 <= k < all.len() && all[k] == r;
            if k < rest.len() {
                assert(rest[k] == r);
            }
            assert(found[found.len() - 1].record == Some(r));
        }
        if exists|i: int|
            0 <= i < found.len() && (#[trigger] found[i]).record == Some(r) && (r.pid is None
                || found[i].alive) && names.contains(r.workspace) && (match elapsed(
                now.secs,
                now.nanos,
                r.updated_at.secs,
                r.updated_at.nanos,
            ) {
                Some(age) => age <= 24 * 60 * 60,
                None => true,
            }) {
            let i = choose|i: int|
                0 <= i < found.len() && (#[trigger] found[i]).record == Some(r) && (r.pid is None
                    || found[i].alive) && names.contains(r.workspace) && (match elapsed(
                    now.secs,
                    now.nanos,
                    r.updated_at.secs,
                    r.updated_at.nanos,
                ) {
                    Some(age) => age <= 24 * 60 * 60,
                    None => true,
                });
            if i < t.len() {
                assert(t[i] == found[i]);
            } else {
                assert(all[all.len() - 1] == r);
            }
        }
    }
}

/// A file is deleted exactly where it holds no record, or one whose process is
/// gone, or one that is older than a day: never because its workspace is not there.
pub proof fn dead_files(found: Seq<FoundView>, now: Timestamp, path: Seq<char>)
    ensures
        dead(found, now).contains(path) <==> exists|i: int|
            0 <= i < found.len() && (#[trigger] found[i]).path == path && (found[i].record is None
                || (found[i].record->0.pid is Some && !found[i].alive) || (elapsed(
                now.secs,
                now.nanos,
                found[i].record->0.updated_at.secs,
                found[i].record->0.updated_at.nanos,
            ) matches Some(age) && age > 24 * 60 * 60)),
    decreases found.len(),
{
    if found.len() > 0 {
        let t = found.drop_last();
        let all = dead(found, now);
        let rest = dead(t, now);
        dead_files(t, now, path);
        if rest.contains(path) {
            let k = choose|k: int| 0 <= k < rest.len() && rest[k] == path;
            assert(all[k] == path);
            let i = choose|i: int|
                0 <= i < t.len() && (#[trigger] t[i]).path == path && (t[i].record is None || (
                t[i].record->0.pid is Some && !t[i].alive) || (elapsed(
                    now.secs,
                    now.nanos,
                    t[i].record->0.updated_at.secs,
                    t[i].record->0.updated_at.nanos,
                ) matches Some(age) && age > 24 * 60 * 60));
            assert(found[i] == t[i]);
        }
        if all.contains(path) && !rest.contains(path) {
            let k = choose|k: int| 0 <= k < all.len() && all[k] == path;
            if k < rest.len() {
                assert(rest[k] == path);
            }
            assert(found[found.len() - 1].path == path);
        }
        if is_dead(found.last(), now) {
            assert(all[all.len() - 1] == found.last().path);
        }
        assert forall|i: int| 0 <= i < t.len() implies t[i] == #[trigger] found[i] by {}
    }
}

/// A workspace has as many running, or waiting, sessions as there are records of
/// it in that state.
pub proof fn counted_by_state(
    records: Seq<SessionRecordView>,
    workspace: Seq<char>,
    state: SessionState,
)
    ensures
        count(records, workspace, state) == records.filter(
            |r: SessionRecordView| r.workspace == workspace && r.state == state,
        ).len(),
    decreases records.len(),
{
    reveal(Seq::filter);
    if records.len() > 0 {
        counted_by_state(records.drop_last(), workspace, state);
    }
}

/// What is shown of each workspace: it is there exactly where it has a record, with
/// as many running and waiting sessions as it has records of either kind.
pub proof fn statuses_count(records: Seq<SessionRecordView>, workspace: Seq<char>)
    requires
        records.len() <= usize::MAX,
    ensures
        statuses(records).contains_key(workspace) <==> exists|i: int|
            0 <= i < records.len() && (#[trigger] records[i]).workspace == workspace,
        statuses(records).contains_key(workspace) ==> statuses(records)[workspace].running
            == records.filter(
            |r: SessionRecordView| r.workspace == workspace && r.state == SessionState::Running,
        ).len() && statuses(records)[workspace].waiting == records.filter(
            |r: SessionRecordView| r.workspace == workspace && r.state == SessionState::Waiting,
        ).len(),
{
    counted_by_state(records, workspace, SessionState::Running);
    counted_by_state(records, workspace, SessionState::Waiting);
    lemma_count_bound(records, workspace);
    lemma_counted(records, workspace);
}

proof fn lemma_counted(records: Seq<SessionRecordView>, workspace: Seq<char>)
    ensures
        count(records, workspace, SessionState::Running) + count(
            records,
            workspace,
            SessionState::Waiting,
        ) > 0 <==> exists|i: int|
            0 <= i < records.len() && (#[trigger] records[i]).workspace == workspace,
    decreases records.len(),
{
    if records.len() > 0 {
        let t = records.drop_last();
        lemma_counted(t, workspace);
        assert forall|i: int| 0 <= i < t.len() implies t[i] == #[trigger] records[i] by {}
        if exists|i: int| 0 <= i < t.len() && (#[trigger] t[i]).workspace == workspace {
            let i = choose|i: int| 0 <= i < t.len() && (#[trigger] t[i]).workspace == workspace;
            assert(records[i].workspace == workspace);
        }
        if records.last().workspace == workspace {
            assert(records[records.len() - 1].workspace == workspace);
        }
    }
}

/// A workspace that owns a directory holds it, and no workspace that holds it has a
/// longer path: of nested workspaces the innermost owns. Where one holds a
/// directory, one owns it.
pub proof fn innermost_owns(list: Seq<WorkspaceConfigView>, i: int, j: int, dir: Seq<char>)
    requires
        0 <= j < list.len(),
        components_of(list[j].workspace.path).is_prefix_of(components_of(dir)),
        forall|k: int|
            0 <= k < list.len() ==> encode_utf8((#[trigger] list[k]).workspace.path).len()
                <= usize::MAX,
    ensures
        owns(list, i, dir) ==> components_of(list[i].workspace.path).is_prefix_of(
            components_of(dir),
        ) && encode_utf8(list[j].workspace.path).len() <= encode_utf8(
            list[i].workspace.path,
        ).len(),
        exists|k: int| #[trigger] owns(list, k, dir),
{
    assert(is_within(dir, list[j].workspace.path));
    lemma_owner_exists(list, list.len() as int, dir, j);
    if owns(list, i, dir) {
        assert(is_within(dir, list[i].workspace.path));
    }
}

/// Among the first `n` workspaces, where the one at `j` holds the directory, one is
/// the owner.
proof fn lemma_owner_exists(list: Seq<WorkspaceConfigView>, n: int, dir: Seq<char>, j: int)
    requires
        0 <= j < n <= list.len(),
        is_within(dir, list[j].workspace.path),
    ensures
        exists|k: int| #[trigger] owns(list.take(n), k, dir),
        n == list.len() ==> exists|k: int| #[trigger] owns(list, k, dir),
    decreases n,
{
    let now = list.take(n);
    let last = n - 1;
    assert(list.take(last) =~= now.take(last));
    let held = exists|k: int| 0 <= k < last && is_within(dir, (#[trigger] list[k]).workspace.path);
    if held {
        let h = choose|k: int| 0 <= k < last && is_within(dir, (#[trigger] list[k]).workspace.path);
        lemma_owner_exists(list, last, dir, h);
        let before = list.take(last);
        let o = choose|k: int| #[trigger] owns(before, k, dir);
        assert(now[o] == before[o]);
        assert forall|k: int| 0 <= k < last implies now[k] == #[trigger] before[k] by {}
        if is_within(dir, list[last].workspace.path) && byte_len(list[last].workspace.path)
            > byte_len(list[o].workspace.path) {
            assert forall|k: int|
                0 <= k < now.len() && is_within(dir, (#[trigger] now[k]).workspace.path) implies byte_len(
                now[k].workspace.path,
            ) < byte_len(now[last].workspace.path) || (byte_len(now[k].workspace.path) == byte_len(
                now[last].workspace.path,
            ) && last <= k) by {
                if k < last {
                    assert(before[k] == now[k]);
                }
            }
            assert(owns(now, last, dir));
        } else {
            assert forall|k: int|
                0 <= k < now.len() && is_within(dir, (#[trigger] now[k]).workspace.path) implies byte_len(
                now[k].workspace.path,
            ) < byte_len(now[o].workspace.path) || (byte_len(now[k].workspace.path) == byte_len(
                now[o].workspace.path,
            ) && o <= k) by {
                if k < last {
                    assert(before[k] == now[k]);
                }
            }
            assert(owns(now, o, dir));
        }
    } else {
        assert(j == last) by {
            if j < last {
                assert(is_within(dir, list[j].workspace.path));
            }
        }
        assert forall|k: int|
            0 <= k < now.len() && is_within(dir, (#[trigger] now[k]).workspace.path) implies k
            == last by {
            if k < last {
                assert(is_within(dir, list[k].workspace.path));
            }
        }
        assert(owns(now, last, dir));
    }
    if n == list.len() {
        assert(now =~= list);
    }
}

/// A session that is started in a worktree of a workspace, or anywhere below it, is
/// that of a workspace: one owns the directory, and none with a shorter path than
/// the workspace does.
pub proof fn worktree_sessions_owned(
    list: Seq<WorkspaceConfigView>,
    j: int,
    repo: Seq<char>,
    below: Seq<char>,
    i: int,
)
    requires
        0 <= j < list.len(),
        list[j].workspace.path.len() > 0,
        !is_absolute(repo),
        !is_absolute(below),
        forall|k: int|
            0 <= k < list.len() ==> encode_utf8((#[trigger] list[k]).workspace.path).len()
                <= usize::MAX,
    ensures
        ({
            let dir = joined_path(joined_path(list[j].workspace.path, repo), below);
            &&& is_within(dir, list[j].workspace.path)
            &&& exists|k: int| #[trigger] owns(list, k, dir)
            &&& owns(list, i, dir) ==> encode_utf8(list[j].workspace.path).len() <= encode_utf8(
                list[i].workspace.path,
            ).len()
        }),
{
    let p = list[j].workspace.path;
    let w = joined_path(p, repo);
    let dir = joined_path(w, below);
    joined_lies_below(p, repo);
    joined_lies_below(w, below);
    let (x, y) = (components_of(p), components_of(dir));
    assert(x =~= y.take(x.len() as int));
    innermost_owns(list, i, j, dir);
}

/// An id that is safe as the name of a file is the name of its record, so that two
/// sessions with such ids never share a record; and a record is found again where
/// records are looked for.
pub proof fn record_files_found(dir: Seq<char>, id: Seq<char>, i: int)
    requires
        dir.len() > 0,
        id.len() > 0,
        0 <= i < id.len(),
    ensures
        safe_name(id).len() == id.len(),
        is_alnum(id[i]) || id[i] == '-' || id[i] == '_' ==> safe_name(id)[i] == id[i],
        !(is_alnum(id[i]) || id[i] == '-' || id[i] == '_') ==> safe_name(id)[i] == '_',
        extension_of(joined_path(dir, safe_name(id) + ".json"@)) == Some("json"@),
{
    record_stays_inside(dir, id);
    reveal_strlit(".json");
    reveal_strlit("json");
    reveal_strlit(".");
    let n = safe_name(id);
    assert(n + ".json"@ =~= n + "."@ + "json"@);
    extension_of_file(dir, n, "json"@);
}

/// A hook reports to this program exactly where its command has the word for it,
/// whichever path the program had when the hook was set up.
pub proof fn reports_by_command(path: Seq<char>, arg: Seq<char>, t: Seq<char>)
    ensures
        has_report(JsonView::Array(seq![hook_group(path, arg)])),
        reports(JsonView::Object(seq![("command"@, JsonView::Text(t))])) <==> occurs(
            t,
            "session-event"@,
        ),
{
    lemma_group_reports(path, arg);
    let l = JsonView::Array(seq![hook_group(path, arg)]);
    assert(group_reports(l.items()[0]));
    let f = seq![("command"@, JsonView::Text(t))];
    assert(entry(f, "command"@) == Some(JsonView::Text(t)));
}

/// A session that reports shows at the workspace that owns it, in the state that it
/// reported last, as long as its process is not known to be gone, the record is not
/// older than a day, and the workspace is there.
pub proof fn report_shows(
    list: Seq<WorkspaceConfigView>,
    i: int,
    id: Seq<char>,
    cwd: Seq<char>,
    state: SessionState,
    then: Timestamp,
    pid: Option<i32>,
    found: Seq<FoundView>,
    k: int,
    now: Timestamp,
)
    requires
        0 <= i < list.len(),
        0 <= k < found.len(),
        found.len() <= usize::MAX,
        found[k].record == Some(
            recorded(id, list[i].workspace.name, cwd, state, then, pid),
        ),
        pid is None || found[k].alive,
        elapsed(now.secs, now.nanos, then.secs, then.nanos) matches Some(age) ==> age <= 24 * 60 * 60,
    ensures
        ({
            let name = list[i].workspace.name;
            let shown = statuses(active(found, names(list), now));
            &&& shown.contains_key(name)
            &&& state == SessionState::Running ==> shown[name].shown() == Some(SessionState::Running)
            &&& state == SessionState::Waiting ==> shown[name].waiting > 0
            &&& exists|m: int|
                0 <= m < active(found, names(list), now).len() && (#[trigger] active(
                    found,
                    names(list),
                    now,
                )[m]).session_id == id && active(found, names(list), now)[m].cwd == cwd && active(
                    found,
                    names(list),
                    now,
                )[m].updated_at == then && active(found, names(list), now)[m].pid == pid
        }),
{
    let name = list[i].workspace.name;
    let r = recorded(id, name, cwd, state, then, pid);
    let l = active(found, names(list), now);
    assert(names(list)[i] == name);
    assert(names(list).contains(name));
    active_records(found, names(list), now, r);
    assert(found[k].record == Some(r));
    assert(l.contains(r));
    lemma_active_len(found, names(list), now);
    let m = choose|m: int| 0 <= m < l.len() && l[m] == r;
    assert(l[m].workspace == name);
    lemma_counted_one(l, m);
    lemma_count_bound(l, name);
    running_first(l, name);
    statuses_count(l, name);
}

proof fn lemma_active_len(found: Seq<FoundView>, names: Seq<Seq<char>>, now: Timestamp)
    ensures
        active(found, names, now).len() <= found.len(),
    decreases found.len(),
{
    if found.len() > 0 {
        lemma_active_len(found.drop_last(), names, now);
    }
}

proof fn lemma_counted_one(records: Seq<SessionRecordView>, m: int)
    requires
        0 <= m < records.len(),
    ensures
        count(records, records[m].workspace, records[m].state) > 0,
    decreases records.len(),
{
    if m < records.len() - 1 {
        assert(records.drop_last()[m] == records[m]);
        lemma_counted_one(records.drop_last(), m);
    }
}

/// Nothing is written exactly where every event that is reported has a hook that
/// reports it; and what is written gives every one of them such a hook.
pub proof fn every_event_reports(text: Option<Seq<char>>, cutter: Seq<char>, i: int)
    requires
        0 <= i < hook_events().len(),
        fields_wf(settings_fields(text)),
    ensures
        hooks_file(text, cutter) == Ok::<Option<Seq<char>>, ErrorView>(None) ==> !missing(
            hooks_of(settings_fields(text)),
            hook_events()[i].0,
        ),
        missing(hooks_of(settings_fields(text)), hook_events()[i].0) ==> hooks_file(text, cutter)
            == (match file_of(hooked(settings_fields(text), cutter)) {
            Ok(t) => Ok::<Option<Seq<char>>, ErrorView>(Some(t)),
            Err(e) => Err(e),
        }),
        !missing(
            hooks_of(hooked(settings_fields(text), cutter).fields()),
            hook_events()[i].0,
        ),
{
    let f = settings_fields(text);
    hooks_law(f, cutter, "hooks"@);
    let h = hooks_of(hooked(f, cutter).fields());
    let e = hook_events()[i];
    assert(entry(h, e.0) == event_hooked(hooks_of(f), e, cutter));
    if missing(hooks_of(f), e.0) {
        let v = groups(hooks_of(f), e.0).push(hook_group(cutter, e.1));
        lemma_group_reports(cutter, e.1);
        assert(group_reports(JsonView::Array(v).items()[v.len() - 1]));
        assert(lacking(hooks_of(f), hook_events()));
    }
}

} // verus!
