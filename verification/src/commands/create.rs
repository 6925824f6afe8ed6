//! Creating a workspace: what is asked, what is done in which order, and what is
//! undone where it fails.
use vstd::prelude::*;

use crate::cli::ClaudeMode;
use crate::config::{
    expand_tilde, start_point, start_point_of, workspace_root_dir, Base, BaseView, Config,
    ConfigView, Environment, EnvironmentView, RepoRefView, SettingsView,
};
use crate::error::{outcome, Error, ErrorView};
use crate::paths::{is_absolute, join_path, joined_path};
use crate::table::entry;
use crate::text::{
    cat, cat3, chars_of, copy_strings, join, joined, occurs, occurs_at, own, trim, trimmed,
};
use crate::time::Timestamp;
use crate::workspace::{
    WorkspaceConfig, WorkspaceConfigView, WorkspaceInfo, WorkspaceInfoView, WorkspaceRepo,
    WorkspaceRepoView,
};

verus! {

// ---------------------------------------------------------------------------
// What the user is asked
// ---------------------------------------------------------------------------

/// What is wrong with a name typed in for a workspace.
pub fn name_problem(input: &str, exists: bool) -> (r: Option<String>)
    ensures
        r.deep_view() == (if trimmed(input@).len() == 0 {
            Some("Name cannot be empty"@)
        } else if exists {
            Some(ErrorView::WorkspaceAlreadyExists(input@).message())
        } else {
            None
        }),
{
    let t = trim(input);
    let cs = chars_of(t.as_str());
    if cs.len() == 0 {
        Some(own("Name cannot be empty"))
    } else if exists {
        Some(cat3("Workspace '", input, "' already exists"))
    } else {
        None
    }
}

/// The names of a base's repos.
pub open spec fn repo_names(base: BaseView) -> Seq<Seq<char>> {
    base.repos.map_values(|r: RepoRefView| r.name)
}

/// The names of a base's repos, with commas between them.
pub fn repo_list(base: &Base) -> (r: String)
    ensures
        r@ == joined(repo_names(base.deep_view()), ", "@),
{
    let mut names: Vec<String> = Vec::new();
    for i in 0..base.repos.len()
        invariant
            names@.len() == i,
            forall|j: int| 0 <= j < i ==> (#[trigger] names@[j])@ == base.repos@[j].name@,
    {
        names.push(base.repos[i].name.clone());
    }
    assert(names.deep_view() =~= repo_names(base.deep_view()));
    join(&names, ", ")
}

/// How a base is offered.
pub open spec fn base_item(b: (Seq<char>, BaseView)) -> Seq<char> {
    b.0 + " ("@ + joined(repo_names(b.1), ", "@) + ")"@
}

/// How the bases are offered, in the order of their names.
pub fn base_items(config: &Config) -> (r: Result<Vec<String>, Error>)
    ensures
        outcome(r) == (if config@.bases.len() == 0 {
            Err(ErrorView::Git("No bases configured. Add one with `cutter base add`."@))
        } else {
            Ok(config@.bases.map_values(|b: (Seq<char>, BaseView)| base_item(b)))
        }),
{
    if config.bases.len() == 0 {
        return Err(Error::Git(own("No bases configured. Add one with `cutter base add`.")));
    }
    let mut items: Vec<String> = Vec::new();
    for i in 0..config.bases.len()
        invariant
            items@.len() == i,
            forall|j: int|
                0 <= j < i ==> (#[trigger] items@[j])@ == base_item(config.bases.deep_view()[j]),
    {
        let repos = repo_list(&config.bases[i].1);
        let head = cat3(config.bases[i].0.as_str(), " (", repos.as_str());
        items.push(cat(head.as_str(), ")"));
    }
    assert(items.deep_view() =~= config@.bases.map_values(
        |b: (Seq<char>, BaseView)| base_item(b),
    ));
    Ok(items)
}

/// Whether the user is asked how to open the workspace: only where something
/// else is asked too, and nothing about it was said.
pub fn asks_mode(name_given: bool, base_given: bool, mode: ClaudeMode, print: bool) -> (r: bool)
    ensures
        r == (!(name_given && base_given) && mode == ClaudeMode::Off && !print),
{
    !(name_given && base_given) && mode == ClaudeMode::Off && !print
}

/// The mode behind the answer, by its place in the list.
pub fn mode_at(selection: usize) -> (r: ClaudeMode)
    ensures
        r == (if selection == 1 {
            ClaudeMode::Normal
        } else if selection == 2 {
            ClaudeMode::DangerouslySkipPermissions
        } else {
            ClaudeMode::Off
        }),
{
    if selection == 1 {
        ClaudeMode::Normal
    } else if selection == 2 {
        ClaudeMode::DangerouslySkipPermissions
    } else {
        ClaudeMode::Off
    }
}

// ---------------------------------------------------------------------------
// The plan
// ---------------------------------------------------------------------------

/// A repo of the workspace: where it comes from, where its worktree goes, and
/// what its branch starts from.
#[derive(Debug)]
pub struct PlannedRepo {
    pub name: String,
    pub source: String,
    pub target: String,
    pub from: String,
}

/// A workspace to be created. Its branch has its name.
#[derive(Debug)]
pub struct Plan {
    pub name: String,
    pub base: String,
    pub dir: String,
    pub repos: Vec<PlannedRepo>,
    pub copy_files: Vec<String>,
}

/// What a [`PlannedRepo`] stands for.
#[verifier::ext_equal]
pub struct PlannedRepoView {
    pub name: Seq<char>,
    pub source: Seq<char>,
    pub target: Seq<char>,
    pub from: Seq<char>,
}

/// What a [`Plan`] stands for.
#[verifier::ext_equal]
pub struct PlanView {
    pub name: Seq<char>,
    pub base: Seq<char>,
    pub dir: Seq<char>,
    pub repos: Seq<PlannedRepoView>,
    pub copy_files: Seq<Seq<char>>,
}

impl DeepView for PlannedRepo {
    type V = PlannedRepoView;

    open spec fn deep_view(&self) -> PlannedRepoView {
        PlannedRepoView {
            name: self.name@,
            source: self.source@,
            target: self.target@,
            from: self.from@,
        }
    }
}

impl DeepView for Plan {
    type V = PlanView;

    open spec fn deep_view(&self) -> PlanView {
        PlanView {
            name: self.name@,
            base: self.base@,
            dir: self.dir@,
            repos: self.repos.deep_view(),
            copy_files: self.copy_files.deep_view(),
        }
    }
}

/// Where a repo comes from, a leading tilde standing for the home directory, where
/// its worktree goes and what its branch starts from.
pub open spec fn planned(
    env: EnvironmentView,
    dir: Seq<char>,
    repo: RepoRefView,
    base: BaseView,
    settings: SettingsView,
) -> PlannedRepoView {
    PlannedRepoView {
        name: repo.name,
        source: env.expand(repo.path),
        target: joined_path(dir, repo.name),
        from: start_point_of(repo, base, settings),
    }
}

/// A workspace to be created in `root` from a base.
pub open spec fn plan_of(
    env: EnvironmentView,
    root: Seq<char>,
    name: Seq<char>,
    base_name: Seq<char>,
    base: BaseView,
    settings: SettingsView,
) -> PlanView {
    let dir = joined_path(root, name);
    PlanView {
        name,
        base: base_name,
        dir,
        repos: base.repos.map_values(|r: RepoRefView| planned(env, dir, r, base, settings)),
        copy_files: base.copy_files,
    }
}

/// The directory under which workspaces are created.
pub open spec fn root_of(config: ConfigView, env: Environment) -> Seq<char> {
    match env@.workspace_root {
        Some(root) => root,
        None => env@.expand(config.settings.workspace_root),
    }
}

/// The plan of a workspace: an error where the base is not there, or a workspace of
/// that name is.
pub open spec fn planning(
    config: ConfigView,
    env: EnvironmentView,
    root: Seq<char>,
    name: Seq<char>,
    base_name: Seq<char>,
    exists: bool,
) -> Result<PlanView, ErrorView> {
    match entry(config.bases, base_name) {
        None => Err(ErrorView::BaseNotFound(base_name)),
        Some(base) => if exists {
            Err(ErrorView::WorkspaceAlreadyExists(name))
        } else {
            Ok(plan_of(env, root, name, base_name, base, config.settings))
        },
    }
}

/// Plans a workspace: an error where the base is not there, or a workspace of
/// that name is.
pub fn plan(
    config: &Config,
    env: &Environment,
    name: &str,
    base_name: &str,
    exists: bool,
) -> (r: Result<Plan, Error>)
    ensures
        outcome(r) == planning(
            config@,
            env@,
            root_of(config@, *env),
            name@,
            base_name@,
            exists,
        ),
{
    let base = match config.base(base_name) {
        Some(b) => b,
        None => {
            return Err(Error::BaseNotFound(own(base_name)));
        },
    };
    if exists {
        return Err(Error::WorkspaceAlreadyExists(own(name)));
    }
    let root = workspace_root_dir(config, env);
    let dir = join_path(root.as_str(), name);
    let ghost v = base.deep_view();
    let ghost settings = config@.settings;
    let mut repos: Vec<PlannedRepo> = Vec::new();
    for i in 0..base.repos.len()
        invariant
            v == base.deep_view(),
            settings == config@.settings,
            repos@.len() == i,
            forall|j: int|
                0 <= j < i ==> (#[trigger] repos@[j]).deep_view() == planned(
                    env@,
                    dir@,
                    v.repos[j],
                    v,
                    settings,
                ),
    {
        let repo = &base.repos[i];
        repos.push(
            PlannedRepo {
                name: repo.name.clone(),
                source: expand_tilde(repo.path.as_str(), env),
                target: join_path(dir.as_str(), repo.name.as_str()),
                from: start_point(repo, base, &config.settings),
            },
        );
        assert(repos@[i as int].deep_view() =~= planned(
            env@,
            dir@,
            v.repos[i as int],
            v,
            settings,
        ));
    }
    let copy_files = copy_strings(&base.copy_files);
    let p = Plan { name: own(name), base: own(base_name), dir, repos, copy_files };
    assert(p.repos.deep_view() =~= v.repos.map_values(
        |r: RepoRefView| planned(env@, p.dir@, r, v, settings),
    ));
    assert(p.deep_view() =~= plan_of(
        env@,
        root_of(config@, *env),
        name@,
        base_name@,
        v,
        settings,
    ));
    Ok(p)
}

/// What is wrong with the source of a repo, by whether there is something at its
/// path, and whether that is a repository.
pub fn check_source(path: &str, exists: bool, is_repo: bool) -> (r: Result<(), Error>)
    ensures
        outcome(r) == (if !exists {
            Err(ErrorView::PathNotFound(path@))
        } else if !is_repo {
            Err(ErrorView::NotAGitRepo(path@))
        } else {
            Ok(())
        }),
{
    if !exists {
        Err(Error::PathNotFound(own(path)))
    } else if !is_repo {
        Err(Error::NotAGitRepo(own(path)))
    } else {
        Ok(())
    }
}

// ---------------------------------------------------------------------------
// The order of things
// ---------------------------------------------------------------------------

/// How far a creation has come.
#[derive(Debug, Clone, Copy, PartialEq, Eq, Structural)]
pub enum Phase {
    /// Is the source of this repo a repository?
    Checking(usize),
    /// Fetching this repo.
    Fetching(usize),
    /// Making the workspace's directory.
    MakingDir,
    /// Adding the worktree of this repo.
    Adding(usize),
    /// Removing the worktrees again, of which so many had been added.
    Undoing { at: usize, added: usize },
    /// Removing the workspace's directory again.
    RemovingDir,
    /// Copying files into the worktrees.
    Copying,
    /// Assembling the assistant's directory.
    Merging,
    /// Laying the base's directory for the assistant over it.
    Overlaying,
    /// Remembering the workspace.
    Saving,
    Done,
}

/// The phase that stands for one whose list of `n` repos is exhausted.
pub open spec fn settled(p: Phase, n: nat) -> Phase {
    match p {
        Phase::Checking(i) => if i >= n {
            settled_fetching(0, n)
        } else {
            p
        },
        Phase::Fetching(i) => settled_fetching(i, n),
        Phase::Adding(i) => if i >= n {
            Phase::Copying
        } else {
            p
        },
        Phase::Undoing { at, added } => if at >= added {
            Phase::RemovingDir
        } else {
            p
        },
        _ => p,
    }
}

pub open spec fn settled_fetching(i: usize, n: nat) -> Phase {
    if i >= n {
        Phase::MakingDir
    } else {
        Phase::Fetching(i)
    }
}

/// The phase after `p`, by whether what it stands for succeeded. A worktree that
/// cannot be added undoes those before it; any other failure ends the creation.
pub open spec fn next(p: Phase, n: nat, ok: bool) -> Phase {
    match p {
        Phase::Checking(i) => if ok {
            settled(Phase::Checking((i + 1) as usize), n)
        } else {
            Phase::Done
        },
        Phase::Fetching(i) => if ok {
            settled(Phase::Fetching((i + 1) as usize), n)
        } else {
            Phase::Done
        },
        Phase::MakingDir => if ok {
            settled(Phase::Adding(0), n)
        } else {
            Phase::Done
        },
        Phase::Adding(i) => if ok {
            settled(Phase::Adding((i + 1) as usize), n)
        } else {
            settled(Phase::Undoing { at: 0, added: i }, n)
        },
        Phase::Undoing { at, added } => settled(
            Phase::Undoing { at: (at + 1) as usize, added },
            n,
        ),
        Phase::RemovingDir => Phase::Done,
        Phase::Copying => if ok {
            Phase::Merging
        } else {
            Phase::Done
        },
        Phase::Merging => if ok {
            Phase::Overlaying
        } else {
            Phase::Done
        },
        Phase::Overlaying => if ok {
            Phase::Saving
        } else {
            Phase::Done
        },
        Phase::Saving => Phase::Done,
        Phase::Done => Phase::Done,
    }
}

/// Whether a failure in this phase is that of the creation. What fails while it
/// is undone is not.
pub open spec fn counts(p: Phase) -> bool {
    !(p is Undoing || p is RemovingDir || p is Done)
}

/// The phase refers to repos that there are.
pub open spec fn in_bounds(p: Phase, n: nat) -> bool {
    match p {
        Phase::Checking(i) => i < n,
        Phase::Fetching(i) => i < n,
        Phase::Adding(i) => i < n,
        Phase::Undoing { at, added } => at < added && added < n,
        _ => true,
    }
}

/// A creation under way.
pub struct Creation {
    pub plan: Plan,
    pub phase: Phase,
    /// Why it failed, where it has.
    pub failure: Option<Error>,
}

/// What is to be done next.
#[derive(Debug)]
pub enum Task {
    Check { path: String },
    Fetch { repo: String, source: String },
    MakeDir { path: String },
    AddWorktree { repo: String, source: String, target: String, branch: String, from: String },
    RemoveWorktree { source: String, target: String, force: bool },
    RemoveDir { path: String },
    CopyFiles,
    MergeClaude,
    OverlayClaude,
    Save,
    Finish,
}

/// What a [`Task`] stands for.
pub enum TaskView {
    Check { path: Seq<char> },
    Fetch { repo: Seq<char>, source: Seq<char> },
    MakeDir { path: Seq<char> },
    AddWorktree {
        repo: Seq<char>,
        source: Seq<char>,
        target: Seq<char>,
        branch: Seq<char>,
        from: Seq<char>,
    },
    RemoveWorktree { source: Seq<char>, target: Seq<char>, force: bool },
    RemoveDir { path: Seq<char> },
    CopyFiles,
    MergeClaude,
    OverlayClaude,
    Save,
    Finish,
}

impl View for Task {
    type V = TaskView;

    open spec fn view(&self) -> TaskView {
        match self {
            Task::Check { path } => TaskView::Check { path: path@ },
            Task::Fetch { repo, source } => TaskView::Fetch { repo: repo@, source: source@ },
            Task::MakeDir { path } => TaskView::MakeDir { path: path@ },
            Task::AddWorktree { repo, source, target, branch, from } => TaskView::AddWorktree {
                repo: repo@,
                source: source@,
                target: target@,
                branch: branch@,
                from: from@,
            },
            Task::RemoveWorktree { source, target, force } => TaskView::RemoveWorktree {
                source: source@,
                target: target@,
                force: *force,
            },
            Task::RemoveDir { path } => TaskView::RemoveDir { path: path@ },
            Task::CopyFiles => TaskView::CopyFiles,
            Task::MergeClaude => TaskView::MergeClaude,
            Task::OverlayClaude => TaskView::OverlayClaude,
            Task::Save => TaskView::Save,
            Task::Finish => TaskView::Finish,
        }
    }
}

/// What a phase stands for.
pub open spec fn task_of(p: Phase, plan: PlanView) -> TaskView {
    match p {
        Phase::Checking(i) => TaskView::Check { path: plan.repos[i as int].source },
        Phase::Fetching(i) => TaskView::Fetch {
            repo: plan.repos[i as int].name,
            source: plan.repos[i as int].source,
        },
        Phase::MakingDir => TaskView::MakeDir { path: plan.dir },
        Phase::Adding(i) => TaskView::AddWorktree {
            repo: plan.repos[i as int].name,
            source: plan.repos[i as int].source,
            target: plan.repos[i as int].target,
            branch: plan.name,
            from: plan.repos[i as int].from,
        },
        Phase::Undoing { at, added } => TaskView::RemoveWorktree {
            source: plan.repos[at as int].source,
            target: plan.repos[at as int].target,
            force: true,
        },
        Phase::RemovingDir => TaskView::RemoveDir { path: plan.dir },
        Phase::Copying => TaskView::CopyFiles,
        Phase::Merging => TaskView::MergeClaude,
        Phase::Overlaying => TaskView::OverlayClaude,
        Phase::Saving => TaskView::Save,
        Phase::Done => TaskView::Finish,
    }
}

fn settle(p: Phase, n: usize) -> (r: Phase)
    ensures
        r == settled(p, n as nat),
{
    match p {
        Phase::Checking(i) => if i >= n {
            if n == 0 {
                Phase::MakingDir
            } else {
                Phase::Fetching(0)
            }
        } else {
            p
        },
        Phase::Fetching(i) => if i >= n {
            Phase::MakingDir
        } else {
            p
        },
        Phase::Adding(i) => if i >= n {
            Phase::Copying
        } else {
            p
        },
        Phase::Undoing { at, added } => if at >= added {
            Phase::RemovingDir
        } else {
            p
        },
        _ => p,
    }
}

impl Creation {
    /// The phase refers to repos of the plan.
    pub open spec fn wf(&self) -> bool {
        in_bounds(self.phase, self.plan.repos@.len())
    }

    /// Begins a creation: every source is checked before anything else.
    pub fn begin(plan: Plan) -> (r: Creation)
        ensures
            r.wf(),
            r.plan == plan,
            r.phase == phase_after(plan.repos@.len(), Seq::empty()),
            r.failure is None,
    {
        let phase = settle(Phase::Checking(0), plan.repos.len());
        Creation { plan, phase, failure: None }
    }

    /// What is to be done next.
    pub fn task(&self) -> (r: Task)
        requires
            self.wf(),
        ensures
            r@ == task_of(self.phase, self.plan.deep_view()),
    {
        match self.phase {
            Phase::Checking(i) => Task::Check { path: self.plan.repos[i].source.clone() },
            Phase::Fetching(i) => Task::Fetch {
                repo: self.plan.repos[i].name.clone(),
                source: self.plan.repos[i].source.clone(),
            },
            Phase::MakingDir => Task::MakeDir { path: self.plan.dir.clone() },
            Phase::Adding(i) => Task::AddWorktree {
                repo: self.plan.repos[i].name.clone(),
                source: self.plan.repos[i].source.clone(),
                target: self.plan.repos[i].target.clone(),
                branch: self.plan.name.clone(),
                from: self.plan.repos[i].from.clone(),
            },
            Phase::Undoing { at, added: _ } => Task::RemoveWorktree {
                source: self.plan.repos[at].source.clone(),
                target: self.plan.repos[at].target.clone(),
                force: true,
            },
            Phase::RemovingDir => Task::RemoveDir { path: self.plan.dir.clone() },
            Phase::Copying => Task::CopyFiles,
            Phase::Merging => Task::MergeClaude,
            Phase::Overlaying => Task::OverlayClaude,
            Phase::Saving => Task::Save,
            Phase::Done => Task::Finish,
        }
    }

    /// Goes on after the task has been done.
    pub fn advance(&mut self, done: Result<(), Error>)
        requires
            old(self).wf(),
        ensures
            final(self).wf(),
            final(self).plan == old(self).plan,
            final(self).phase == next(old(self).phase, old(self).plan.repos@.len(), done is Ok),
            final(self).failure == (if done is Err && counts(old(self).phase) {
                Some(done->Err_0)
            } else {
                old(self).failure
            }),
    {
        let n = self.plan.repos.len();
        let ok = done.is_ok();
        let phase = match self.phase {
            Phase::Checking(i) => if ok {
                settle(Phase::Checking(i + 1), n)
            } else {
                Phase::Done
            },
            Phase::Fetching(i) => if ok {
                settle(Phase::Fetching(i + 1), n)
            } else {
                Phase::Done
            },
            Phase::MakingDir => if ok {
                settle(Phase::Adding(0), n)
            } else {
                Phase::Done
            },
            Phase::Adding(i) => if ok {
                settle(Phase::Adding(i + 1), n)
            } else {
                settle(Phase::Undoing { at: 0, added: i }, n)
            },
            Phase::Undoing { at, added } => settle(Phase::Undoing { at: at + 1, added }, n),
            Phase::Copying if ok => Phase::Merging,
            Phase::Merging if ok => Phase::Overlaying,
            Phase::Overlaying if ok => Phase::Saving,
            _ => Phase::Done,
        };
        let undoing = match self.phase {
            Phase::Undoing { at: _, added: _ } => true,
            Phase::RemovingDir => true,
            Phase::Done => true,
            _ => false,
        };
        self.phase = phase;
        if let Err(e) = done {
            if !undoing {
                self.failure = Some(e);
            }
        }
    }

    /// What the creation came to.
    pub fn finish(self) -> (r: Result<(), Error>)
        ensures
            r == (match self.failure {
                Some(e) => Err(e),
                None => Ok(()),
            }),
    {
        match self.failure {
            Some(e) => Err(e),
            None => Ok(()),
        }
    }
}

// ---------------------------------------------------------------------------
// What always holds of a creation
// ---------------------------------------------------------------------------

/// The phase that a creation of `n` repos is in after these outcomes.
pub open spec fn phase_after(n: nat, outcomes: Seq<bool>) -> Phase
    decreases outcomes.len(),
{
    if outcomes.len() == 0 {
        settled(Phase::Checking(0), n)
    } else {
        next(phase_after(n, outcomes.drop_last()), n, outcomes.last())
    }
}

/// The first `k` outcomes were good.
pub open spec fn good(outcomes: Seq<bool>, k: int) -> bool {
    k <= outcomes.len() && forall|i: int| 0 <= i < k ==> #[trigger] outcomes[i]
}

/// What led to a phase.
spec fn history(n: nat, outcomes: Seq<bool>, p: Phase) -> bool {
    let len = outcomes.len();
    match p {
        Phase::Checking(i) => i < n && len == i && good(outcomes, len as int),
        Phase::Fetching(i) => i < n && len == n + i && good(outcomes, len as int),
        Phase::MakingDir => len == 2 * n && good(outcomes, len as int),
        Phase::Adding(i) => i < n && len == 2 * n + 1 + i && good(outcomes, len as int),
        Phase::Undoing { at, added } => at < added && added < n && len == 2 * n + added + 2 + at
            && good(outcomes, 2 * n + 1 + added) && !outcomes[2 * n + 1 + added],
        Phase::RemovingDir => exists|k: int|
            0 <= k < n && len == 2 * n + k + 2 + k && good(outcomes, 2 * n + 1 + k)
                && !(#[trigger] outcomes[2 * n + 1 + k]),
        Phase::Copying => len == 3 * n + 1 && good(outcomes, len as int),
        Phase::Merging => len == 3 * n + 2 && good(outcomes, len as int),
        Phase::Overlaying => len == 3 * n + 3 && good(outcomes, len as int),
        Phase::Saving => len == 3 * n + 4 && good(outcomes, len as int),
        Phase::Done => true,
    }
}

proof fn lemma_history(n: nat, outcomes: Seq<bool>)
    requires
        n <= usize::MAX,
    ensures
        history(n, outcomes, phase_after(n, outcomes)),
    decreases outcomes.len(),
{
    if outcomes.len() > 0 {
        let before = outcomes.drop_last();
        lemma_history(n, before);
        let p = phase_after(n, before);
        let q = phase_after(n, outcomes);
        let ok = outcomes.last();
        assert forall|k: int| good(before, k) implies good(outcomes, k) by {
            assert forall|i: int| 0 <= i < k implies #[trigger] outcomes[i] by {
                assert(before[i]);
            }
        }
        if ok && good(before, before.len() as int) {
            assert(good(outcomes, outcomes.len() as int));
        }
        match p {
            Phase::Adding(i) => {
                if !ok {
                    assert(outcomes[2 * n + 1 + i] == ok);
                    if i == 0 {
                        assert(q == Phase::RemovingDir);
                        assert(!outcomes[2 * n + 1 + 0int]);
                    }
                }
            },
            Phase::Undoing { at, added } => {
                assert(outcomes[2 * n + 1 + added] == before[2 * n + 1 + added]);
                assert(good(outcomes, 2 * n + 1 + added));
                if at + 1 == added {
                    assert(q == Phase::RemovingDir);
                    assert(!outcomes[2 * n + 1 + added as int]);
                }
            },
            _ => {},
        }
    }
}

/// Whether something has been created in this phase, or is about to be.
pub open spec fn creates(p: Phase) -> bool {
    !(p is Checking || p is Fetching || p is Done)
}

/// Nothing is created before every source has been checked and fetched.
pub proof fn checked_first(n: nat, outcomes: Seq<bool>)
    requires
        n <= usize::MAX,
        creates(phase_after(n, outcomes)),
    ensures
        good(outcomes, 2 * n as int),
{
    lemma_history(n, outcomes);
    let p = phase_after(n, outcomes);
    if p == Phase::RemovingDir {
        let k = choose|k: int|
            0 <= k < n && outcomes.len() == 2 * n + k + 2 + k && good(outcomes, 2 * n + 1 + k)
                && !(#[trigger] outcomes[2 * n + 1 + k]);
        assert(good(outcomes, 2 * n + 1 + k));
    }
}

/// A workspace is remembered only after everything before has succeeded.
pub proof fn saved_last(n: nat, outcomes: Seq<bool>)
    requires
        n <= usize::MAX,
        phase_after(n, outcomes) == Phase::Saving,
    ensures
        outcomes.len() == 3 * n + 4,
        good(outcomes, outcomes.len() as int),
{
    lemma_history(n, outcomes);
}

/// The phase after these outcomes, from `p` on.
pub open spec fn phase_from(p: Phase, n: nat, outcomes: Seq<bool>) -> Phase
    decreases outcomes.len(),
{
    if outcomes.len() == 0 {
        p
    } else {
        next(phase_from(p, n, outcomes.drop_last()), n, outcomes.last())
    }
}

/// Where the worktree of a repo cannot be added, those of the repos before it
/// are removed by force in order, then the directory, whatever else fails, and
/// the creation is done.
pub proof fn undone(n: nat, k: usize, outcomes: Seq<bool>)
    requires
        k < n,
        n <= usize::MAX,
    ensures
        phase_from(next(Phase::Adding(k), n, false), n, outcomes) == (if outcomes.len() < k {
            Phase::Undoing { at: outcomes.len() as usize, added: k }
        } else if outcomes.len() == k {
            Phase::RemovingDir
        } else {
            Phase::Done
        }),
        outcomes.len() < k ==> forall|plan: PlanView|
            #[trigger] task_of(phase_from(next(Phase::Adding(k), n, false), n, outcomes), plan) == (
            TaskView::RemoveWorktree {
                source: plan.repos[outcomes.len() as int].source,
                target: plan.repos[outcomes.len() as int].target,
                force: true,
            }),
    decreases outcomes.len(),
{
    if outcomes.len() > 0 {
        undone(n, k, outcomes.drop_last());
    }
}

// ---------------------------------------------------------------------------
// What is written
// ---------------------------------------------------------------------------

/// The copies of the configured files for one repo, from its source into its
/// worktree.
pub open spec fn repo_copies(repo: PlannedRepoView, files: Seq<Seq<char>>) -> Seq<
    (Seq<char>, Seq<char>),
> {
    files.map_values(
        |f: Seq<char>| (joined_path(repo.source, f), joined_path(repo.target, f)),
    )
}

/// The copies of the configured files, repo by repo.
pub open spec fn file_copies(repos: Seq<PlannedRepoView>, files: Seq<Seq<char>>) -> Seq<
    (Seq<char>, Seq<char>),
>
    decreases repos.len(),
{
    if repos.len() == 0 {
        Seq::empty()
    } else {
        file_copies(repos.drop_last(), files) + repo_copies(repos.last(), files)
    }
}

/// What is remembered of a workspace.
pub open spec fn remembered(plan: PlanView, created_at: Timestamp) -> WorkspaceConfigView {
    WorkspaceConfigView {
        workspace: WorkspaceInfoView {
            name: plan.name,
            base: plan.base,
            branch: plan.name,
            path: plan.dir,
            created_at,
        },
        repos: plan.repos.map_values(
            |r: PlannedRepoView|
                WorkspaceRepoView {
                    name: r.name,
                    source: r.source,
                    branch: plan.name,
                    worktree_path: r.target,
                },
        ),
        linked_windows: Seq::empty(),
    }
}

impl Plan {
    /// The files to copy from the sources into the worktrees, those that are
    /// there: from where, and to where.
    pub fn copy_base_files(&self) -> (r: Vec<(String, String)>)
        ensures
            r.deep_view() == file_copies(self.deep_view().repos, self.deep_view().copy_files),
    {
        let ghost repos = self.deep_view().repos;
        let ghost files = self.deep_view().copy_files;
        let mut out: Vec<(String, String)> = Vec::new();
        assert(out.deep_view() =~= file_copies(repos.take(0), files));
        for i in 0..self.repos.len()
            invariant
                repos == self.deep_view().repos,
                files == self.deep_view().copy_files,
                out.deep_view() == file_copies(repos.take(i as int), files),
        {
            let repo = &self.repos[i];
            let ghost g = out.deep_view();
            let ghost all = repo_copies(repo.deep_view(), files);
            assert(g + all.take(0) =~= g);
            for j in 0..self.copy_files.len()
                invariant
                    files == self.deep_view().copy_files,
                    all == repo_copies(repo.deep_view(), files),
                    out.deep_view() == g + all.take(j as int),
            {
                let file = self.copy_files[j].as_str();
                let ghost here = out.deep_view();
                out.push((join_path(repo.source.as_str(), file), join_path(repo.target.as_str(), file)));
                assert(files[j as int] == file@);
                assert(out.deep_view() =~= here.push(all[j as int]));
                assert(all.take(j + 1) =~= all.take(j as int).push(all[j as int]));
                assert(out.deep_view() =~= g + all.take(j + 1));
            }
            assert(all.take(all.len() as int) =~= all);
            assert(repos.take(i + 1).drop_last() =~= repos.take(i as int));
            assert(repos.take(i + 1).last() == repo.deep_view());
        }
        assert(repos.take(repos.len() as int) =~= repos);
        out
    }

    /// What is remembered of the workspace.
    pub fn workspace_config(&self, created_at: Timestamp) -> (r: WorkspaceConfig)
        ensures
            r.deep_view() == remembered(self.deep_view(), created_at),
    {
        let ghost v = remembered(self.deep_view(), created_at);
        let mut repos: Vec<WorkspaceRepo> = Vec::new();
        for i in 0..self.repos.len()
            invariant
                v == remembered(self.deep_view(), created_at),
                repos@.len() == i,
                forall|j: int| 0 <= j < i ==> (#[trigger] repos@[j]).deep_view() == v.repos[j],
        {
            repos.push(
                WorkspaceRepo {
                    name: self.repos[i].name.clone(),
                    source: self.repos[i].source.clone(),
                    branch: self.name.clone(),
                    worktree_path: self.repos[i].target.clone(),
                },
            );
        }
        let w = WorkspaceConfig {
            workspace: WorkspaceInfo {
                name: self.name.clone(),
                base: self.base.clone(),
                branch: self.name.clone(),
                path: self.dir.clone(),
                created_at,
            },
            repos,
            linked_windows: Vec::new(),
        };
        assert(w.repos.deep_view() =~= v.repos);
        assert(w.linked_windows.deep_view() =~= v.linked_windows);
        w
    }
}

// ---------------------------------------------------------------------------
// What a creation leaves behind
// ---------------------------------------------------------------------------

/// What git and the file system are asked for is what is remembered. Each repo is
/// checked, fetched and branched off in the source that is remembered for it; its
/// worktree is added at the path that is remembered, which is the workspace's
/// directory joined with the repo's name, on the branch that is remembered, which
/// has the workspace's name; and that very worktree is removed again where the
/// creation is undone. The directory that is made, and removed again, is the
/// workspace's.
pub proof fn worktrees_as_remembered(
    env: EnvironmentView,
    root: Seq<char>,
    name: Seq<char>,
    base_name: Seq<char>,
    base: BaseView,
    settings: SettingsView,
    created_at: Timestamp,
    i: usize,
    added: usize,
)
    requires
        i < base.repos.len(),
    ensures
        ({
            let p = plan_of(env, root, name, base_name, base, settings);
            let w = remembered(p, created_at);
            let repo = w.repos[i as int];
            &&& w.repos.len() == base.repos.len()
            &&& repo.name == base.repos[i as int].name
            &&& repo.source == env.expand(base.repos[i as int].path)
            &&& repo.branch == name
            &&& repo.worktree_path == joined_path(joined_path(root, name), repo.name)
            &&& task_of(Phase::Checking(i), p) == (TaskView::Check { path: repo.source })
            &&& task_of(Phase::Fetching(i), p) == (TaskView::Fetch {
                repo: repo.name,
                source: repo.source,
            })
            &&& task_of(Phase::Adding(i), p) == (TaskView::AddWorktree {
                repo: repo.name,
                source: repo.source,
                target: repo.worktree_path,
                branch: repo.branch,
                from: match (base.repos[i as int].branch_from, base.branch_from) {
                    (Some(own), _) => own,
                    (None, Some(shared)) => shared,
                    (None, None) => settings.default_branch_from,
                },
            })
            &&& task_of(Phase::Undoing { at: i, added }, p) == (TaskView::RemoveWorktree {
                source: repo.source,
                target: repo.worktree_path,
                force: true,
            })
        }),
{
}

/// What is remembered of a workspace is the name that was asked for, as its branch
/// too, the base that it came from, the directory that is made for it, which lies
/// in the root under its name, the moment and no window.
pub proof fn workspace_as_asked(
    env: EnvironmentView,
    root: Seq<char>,
    name: Seq<char>,
    base_name: Seq<char>,
    base: BaseView,
    settings: SettingsView,
    created_at: Timestamp,
)
    ensures
        ({
            let p = plan_of(env, root, name, base_name, base, settings);
            let w = remembered(p, created_at);
            &&& w.workspace.name == name
            &&& w.workspace.branch == name
            &&& w.workspace.base == base_name
            &&& w.workspace.path == joined_path(root, name)
            &&& w.workspace.created_at == created_at
            &&& w.linked_windows.len() == 0
            &&& task_of(Phase::MakingDir, p) == (TaskView::MakeDir { path: w.workspace.path })
            &&& task_of(Phase::RemovingDir, p) == (TaskView::RemoveDir { path: w.workspace.path })
            &&& task_of(Phase::Copying, p) == TaskView::CopyFiles
            &&& task_of(Phase::Merging, p) == TaskView::MergeClaude
            &&& task_of(Phase::Overlaying, p) == TaskView::OverlayClaude
            &&& task_of(Phase::Saving, p) == TaskView::Save
            &&& task_of(Phase::Done, p) == TaskView::Finish
        }),
{
}

/// Repos of different names never share a worktree, nor is one of them the
/// workspace's directory itself.
pub proof fn worktrees_apart(dir: Seq<char>, a: Seq<char>, b: Seq<char>)
    requires
        a != b,
        !is_absolute(a),
        !is_absolute(b),
    ensures
        joined_path(dir, a) != joined_path(dir, b),
        a.len() > 0 ==> joined_path(dir, a) != dir,
        dir.is_prefix_of(joined_path(dir, a)),
{
    let head = if dir.len() == 0 || dir.last() == '/' {
        dir
    } else {
        dir.push('/')
    };
    assert(joined_path(dir, a) == head + a && joined_path(dir, b) == head + b);
    assert((head + a).skip(head.len() as int) =~= a);
    assert((head + b).skip(head.len() as int) =~= b);
    assert(dir =~= (head + a).take(dir.len() as int));
}

/// Where everything succeeds, every source is checked, then every repo fetched,
/// then the directory made, then every worktree added, each in the order of the
/// repos and none left out; then files are copied, the assistant's directory is
/// assembled and overlaid, and the workspace remembered.
pub proof fn creation_in_order(n: nat, outcomes: Seq<bool>)
    requires
        n <= usize::MAX,
        forall|i: int| 0 <= i < outcomes.len() ==> #[trigger] outcomes[i],
    ensures
        ({
            let k = outcomes.len();
            phase_after(n, outcomes) == (if k < n {
                Phase::Checking(k as usize)
            } else if k < 2 * n {
                Phase::Fetching((k - n) as usize)
            } else if k == 2 * n {
                Phase::MakingDir
            } else if k <= 3 * n {
                Phase::Adding((k - 2 * n - 1) as usize)
            } else if k == 3 * n + 1 {
                Phase::Copying
            } else if k == 3 * n + 2 {
                Phase::Merging
            } else if k == 3 * n + 3 {
                Phase::Overlaying
            } else if k == 3 * n + 4 {
                Phase::Saving
            } else {
                Phase::Done
            })
        }),
    decreases outcomes.len(),
{
    if outcomes.len() > 0 {
        let before = outcomes.drop_last();
        assert forall|i: int| 0 <= i < before.len() implies #[trigger] before[i] by {
            assert(outcomes[i]);
        }
        assert(outcomes[outcomes.len() - 1]);
        creation_in_order(n, before);
    }
}

/// A creation never ends in silence: where it is over, either everything has
/// succeeded, the remembering last, or something has failed that counts as the
/// failure of the creation.
pub proof fn failure_is_told(n: nat, outcomes: Seq<bool>)
    requires
        n <= usize::MAX,
        phase_after(n, outcomes) == Phase::Done,
    ensures
        good(outcomes, 3 * n as int + 5) || exists|i: int|
            0 <= i < outcomes.len() && !(#[trigger] outcomes[i]) && counts(
                phase_after(n, outcomes.take(i)),
            ),
    decreases outcomes.len(),
{
    if outcomes.len() > 0 {
        let before = outcomes.drop_last();
        let p = phase_after(n, before);
        lemma_history(n, before);
        assert(outcomes.take(before.len() as int) =~= before);
        assert forall|k: int| good(before, k) implies good(outcomes, k) by {
            assert forall|i: int| 0 <= i < k implies #[trigger] outcomes[i] by {
                assert(before[i]);
            }
        }
        if p == Phase::Done {
            failure_is_told(n, before);
            if !good(before, 3 * n as int + 5) {
                let i = choose|i: int|
                    0 <= i < before.len() && !(#[trigger] before[i]) && counts(
                        phase_after(n, before.take(i)),
                    );
                assert(outcomes.take(i) =~= before.take(i));
                assert(!outcomes[i]);
            }
        } else if p == Phase::RemovingDir {
            lemma_added_failed(n, before);
            let i = choose|i: int|
                0 <= i < before.len() && !(#[trigger] before[i]) && counts(
                    phase_after(n, before.take(i)),
                );
            assert(outcomes.take(i) =~= before.take(i));
            assert(!outcomes[i]);
        } else {
            let last = outcomes.len() - 1;
            if outcomes[last] {
                assert(p == Phase::Saving);
                assert(good(outcomes, 3 * n as int + 5));
            } else {
                assert(counts(p));
            }
        }
    }
}

/// Where a creation is being undone, the worktree that could not be added is the
/// failure that counts.
proof fn lemma_added_failed(n: nat, outcomes: Seq<bool>)
    requires
        n <= usize::MAX,
        phase_after(n, outcomes) is Undoing || phase_after(n, outcomes) == Phase::RemovingDir,
    ensures
        exists|i: int|
            0 <= i < outcomes.len() && !(#[trigger] outcomes[i]) && counts(
                phase_after(n, outcomes.take(i)),
            ),
    decreases outcomes.len(),
{
    if outcomes.len() > 0 {
        let before = outcomes.drop_last();
        let p = phase_after(n, before);
        let last = outcomes.len() - 1;
        assert(outcomes.take(last) =~= before);
        if p is Undoing {
            lemma_added_failed(n, before);
            let i = choose|i: int|
                0 <= i < before.len() && !(#[trigger] before[i]) && counts(
                    phase_after(n, before.take(i)),
                );
            assert(outcomes.take(i) =~= before.take(i));
            assert(!outcomes[i]);
        } else {
            assert(p is Adding);
            assert(!outcomes[last]);
        }
    }
}

/// Whatever fails before the worktrees ends the creation at once, and so does
/// whatever fails after them: what has been added by then stays.
pub proof fn failure_ends(p: Phase, n: nat)
    requires
        !(p is Adding),
        !(p is Undoing),
    ensures
        next(p, n, false) == Phase::Done,
{
}

/// Every configured file is copied for every repo, from the repo's source to the
/// same place in its worktree, and nothing else is.
pub proof fn files_copied(
    repos: Seq<PlannedRepoView>,
    files: Seq<Seq<char>>,
    i: int,
    j: int,
)
    requires
        0 <= i < repos.len(),
        0 <= j < files.len(),
    ensures
        file_copies(repos, files).len() == repos.len() * files.len(),
        0 <= i * files.len() + j < file_copies(repos, files).len(),
        file_copies(repos, files)[i * files.len() + j] == (
            joined_path(repos[i].source, files[j]),
            joined_path(repos[i].target, files[j]),
        ),
    decreases repos.len(),
{
    lemma_copies_len(repos, files);
    lemma_copies_len(repos.drop_last(), files);
    let n = repos.len() as int;
    let m = files.len() as int;
    let rest = file_copies(repos.drop_last(), files);
    assert(i * m + j < n * m && 0 <= i * m) by (nonlinear_arith)
        requires
            0 <= i < n,
            0 <= j < m,
    ;
    if i < n - 1 {
        assert(repos.drop_last()[i] == repos[i]);
        files_copied(repos.drop_last(), files, i, j);
    } else {
        assert(rest.len() == i * m);
        assert(file_copies(repos, files)[i * m + j] == repo_copies(repos.last(), files)[j]);
    }
}

proof fn lemma_copies_len(repos: Seq<PlannedRepoView>, files: Seq<Seq<char>>)
    ensures
        file_copies(repos, files).len() == repos.len() * files.len(),
    decreases repos.len(),
{
    if repos.len() > 0 {
        lemma_copies_len(repos.drop_last(), files);
        let n = repos.len() as int;
        let m = files.len() as int;
        assert(n * m == (n - 1) * m + m) by (nonlinear_arith);
    } else {
        assert(0 * files.len() == 0);
    }
}

/// Only one failure is that of the creation: after it, nothing that fails while
/// the creation is undone counts, so that the error told is the first.
pub proof fn first_failure_told(n: nat, outcomes: Seq<bool>, i: int, j: int)
    requires
        n <= usize::MAX,
        0 <= i < j <= outcomes.len(),
        !outcomes[i],
    ensures
        !counts(phase_after(n, outcomes.take(j))),
    decreases j,
{
    let t = outcomes.take(j);
    assert(t.drop_last() =~= outcomes.take(j - 1));
    if j > i + 1 {
        first_failure_told(n, outcomes, i, j - 1);
    } else {
        assert(!t.last());
    }
}

/// Workspaces are created where the environment says, and else where the settings
/// say, a leading tilde standing for the home directory.
pub proof fn root_precedence(config: ConfigView, env: Environment)
    ensures
        env@.workspace_root is Some ==> root_of(config, env) == env@.workspace_root->0,
        env@.workspace_root is None ==> root_of(config, env) == env@.expand(
            config.settings.workspace_root,
        ),
{
}

/// A base is offered by its name, with the names of all its repos behind it.
pub proof fn base_offered(b: (Seq<char>, BaseView))
    ensures
        b.0.is_prefix_of(base_item(b)),
        occurs(base_item(b), "("@ + joined(repo_names(b.1), ", "@) + ")"@),
        repo_names(b.1).len() == b.1.repos.len(),
        forall|i: int| 0 <= i < b.1.repos.len() ==> #[trigger] repo_names(b.1)[i] == b.1.repos[i].name,
{
    reveal_strlit(" (");
    reveal_strlit("(");
    let s = base_item(b);
    let p = "("@ + joined(repo_names(b.1), ", "@) + ")"@;
    assert(b.0 =~= s.take(b.0.len() as int));
    let k = b.0.len() as int + 1;
    assert(s.subrange(k, k + p.len()) =~= p);
    assert(occurs_at(s, p, k));
}

/// A workspace is planned exactly where its base is there and its name is free, from
/// that base, under that name: with one repo for each of the base's, in their order,
/// and the base's files to copy.
pub proof fn planned_from_base(
    config: ConfigView,
    env: EnvironmentView,
    root: Seq<char>,
    name: Seq<char>,
    base_name: Seq<char>,
    exists: bool,
    i: int,
)
    ensures
        planning(config, env, root, name, base_name, exists) is Ok <==> entry(
            config.bases,
            base_name,
        ) is Some && !exists,
        entry(config.bases, base_name) is None ==> planning(
            config,
            env,
            root,
            name,
            base_name,
            exists,
        )->Err_0 == ErrorView::BaseNotFound(base_name),
        entry(config.bases, base_name) is Some && exists ==> planning(
            config,
            env,
            root,
            name,
            base_name,
            exists,
        )->Err_0 == ErrorView::WorkspaceAlreadyExists(name),
        planning(config, env, root, name, base_name, exists) is Ok ==> ({
            let p = planning(config, env, root, name, base_name, exists)->Ok_0;
            let base = entry(config.bases, base_name)->0;
            &&& p == plan_of(env, root, name, base_name, base, config.settings)
            &&& p.name == name
            &&& p.base == base_name
            &&& p.copy_files == base.copy_files
            &&& p.repos.len() == base.repos.len()
            &&& 0 <= i < base.repos.len() ==> p.repos[i].name == base.repos[i].name
        }),
{
}

} // verus!
