//! Removing a workspace: what is done in which order.
use vstd::prelude::*;

use crate::commands::create;
use crate::error::{Error, ErrorView};
use crate::git::{link_of, worktree_link};
use crate::paths::joined_path;
use crate::text::own;
use crate::time::Timestamp;
use crate::workspace::{WorkspaceConfig, WorkspaceConfigView};

verus! {

/// How far a removal has come.
#[derive(Debug, Clone, Copy, PartialEq, Eq, Structural)]
pub enum Phase {
    /// Removing the worktree of this repo.
    Removing(usize),
    /// Removing it by force, as it did not go otherwise.
    Forcing(usize),
    /// Taking the link to git from the worktree of this repo, whose files stay.
    Unregistering(usize),
    /// Letting git forget the worktree that no longer links to it.
    Pruning(usize),
    /// Deleting the branch of this repo.
    DeletingBranch(usize),
    /// Removing the workspace's directory, where it is there.
    RemovingDir,
    /// Forgetting the workspace.
    Forgetting,
    Done,
}

/// The phase that begins with this repo, of `n`. Where the files are to be kept, a
/// worktree is not removed, only taken out of git.
pub open spec fn from_repo(i: int, n: nat, keep_files: bool) -> Phase {
    if i < n && keep_files {
        Phase::Unregistering(i as usize)
    } else if i < n {
        Phase::Removing(i as usize)
    } else if keep_files {
        Phase::Forgetting
    } else {
        Phase::RemovingDir
    }
}

/// The phase after `p`, by whether what it stands for succeeded. A worktree that
/// does not go is removed by force. That a worktree or a branch stays does not
/// end the removal.
pub open spec fn next(p: Phase, n: nat, keep_files: bool, ok: bool) -> Phase {
    match p {
        Phase::Removing(i) => if ok {
            Phase::DeletingBranch(i)
        } else {
            Phase::Forcing(i)
        },
        Phase::Forcing(i) => Phase::DeletingBranch(i),
        Phase::Unregistering(i) => Phase::Pruning(i),
        Phase::Pruning(i) => Phase::DeletingBranch(i),
        Phase::DeletingBranch(i) => from_repo(i + 1, n, keep_files),
        Phase::RemovingDir => if ok {
            Phase::Forgetting
        } else {
            Phase::Done
        },
        Phase::Forgetting => Phase::Done,
        Phase::Done => Phase::Done,
    }
}

/// The phase refers to a repo that there is.
pub open spec fn in_bounds(p: Phase, n: nat) -> bool {
    match p {
        Phase::Removing(i) => i < n,
        Phase::Forcing(i) => i < n,
        Phase::Unregistering(i) => i < n,
        Phase::Pruning(i) => i < n,
        Phase::DeletingBranch(i) => i < n,
        _ => true,
    }
}

/// Whether a failure in this phase is that of the removal: the directory that
/// stays, or the workspace that is not forgotten. Worktrees and branches may stay.
pub open spec fn fatal(p: Phase) -> bool {
    p is RemovingDir || p is Forgetting
}

/// A removal under way.
#[derive(Debug)]
pub struct Removal {
    /// The name under which the workspace is remembered, whatever name it has in
    /// what is remembered of it.
    pub name: String,
    pub workspace: WorkspaceConfig,
    pub keep_files: bool,
    pub phase: Phase,
    /// Why it failed, where it has.
    pub failure: Option<Error>,
}

/// What is to be done next.
#[derive(Debug)]
pub enum Task {
    RemoveWorktree { repo: String, source: String, target: String, force: bool },
    /// Deleting the file that links a worktree to git, where it is there.
    Unlink { repo: String, link: String },
    Prune { repo: String, source: String },
    DeleteBranch { repo: String, source: String, branch: String },
    RemoveDir { path: String },
    Forget { name: String },
    Finish,
}

/// What a [`Task`] stands for.
pub enum TaskView {
    RemoveWorktree { repo: Seq<char>, source: Seq<char>, target: Seq<char>, force: bool },
    Unlink { repo: Seq<char>, link: Seq<char> },
    Prune { repo: Seq<char>, source: Seq<char> },
    DeleteBranch { repo: Seq<char>, source: Seq<char>, branch: Seq<char> },
    RemoveDir { path: Seq<char> },
    Forget { name: Seq<char> },
    Finish,
}

impl View for Task {
    type V = TaskView;

    open spec fn view(&self) -> TaskView {
        match self {
            Task::RemoveWorktree { repo, source, target, force } => TaskView::RemoveWorktree {
                repo: repo@,
                source: source@,
                target: target@,
                force: *force,
            },
            Task::Unlink { repo, link } => TaskView::Unlink { repo: repo@, link: link@ },
            Task::Prune { repo, source } => TaskView::Prune { repo: repo@, source: source@ },
            Task::DeleteBranch { repo, source, branch } => TaskView::DeleteBranch {
                repo: repo@,
                source: source@,
                branch: branch@,
            },
            Task::RemoveDir { path } => TaskView::RemoveDir { path: path@ },
            Task::Forget { name } => TaskView::Forget { name: name@ },
            Task::Finish => TaskView::Finish,
        }
    }
}

/// What a phase stands for in the removal of what is remembered under `name`.
pub open spec fn task_of(p: Phase, name: Seq<char>, w: WorkspaceConfigView) -> TaskView {
    match p {
        Phase::Removing(i) => TaskView::RemoveWorktree {
            repo: w.repos[i as int].name,
            source: w.repos[i as int].source,
            target: w.repos[i as int].worktree_path,
            force: false,
        },
        Phase::Forcing(i) => TaskView::RemoveWorktree {
            repo: w.repos[i as int].name,
            source: w.repos[i as int].source,
            target: w.repos[i as int].worktree_path,
            force: true,
        },
        Phase::Unregistering(i) => TaskView::Unlink {
            repo: w.repos[i as int].name,
            link: link_of(w.repos[i as int].worktree_path),
        },
        Phase::Pruning(i) => TaskView::Prune {
            repo: w.repos[i as int].name,
            source: w.repos[i as int].source,
        },
        Phase::DeletingBranch(i) => TaskView::DeleteBranch {
            repo: w.repos[i as int].name,
            source: w.repos[i as int].source,
            branch: w.repos[i as int].branch,
        },
        Phase::RemovingDir => TaskView::RemoveDir { path: w.workspace.path },
        Phase::Forgetting => TaskView::Forget { name },
        Phase::Done => TaskView::Finish,
    }
}

fn phase_from(i: usize, n: usize, keep_files: bool) -> (r: Phase)
    ensures
        r == from_repo(i as int, n as nat, keep_files),
{
    if i < n && keep_files {
        Phase::Unregistering(i)
    } else if i < n {
        Phase::Removing(i)
    } else if keep_files {
        Phase::Forgetting
    } else {
        Phase::RemovingDir
    }
}

/// Begins a removal; `found` is what is remembered of the workspace.
pub fn run(name: &str, keep_files: bool, found: Option<WorkspaceConfig>) -> (r: Result<
    Removal,
    Error,
>)
    ensures
        match (found, r) {
            (None, Err(e)) => e@ == ErrorView::WorkspaceNotFound(name@),
            (Some(w), Ok(m)) => m.name@ == name@ && m.workspace == w && m.keep_files == keep_files && m.phase
                == phase_after(w.repos@.len(), keep_files, Seq::empty()) && m.failure is None && m.wf(),
            _ => false,
        },
{
    match WorkspaceConfig::load(name, found) {
        Err(e) => Err(e),
        Ok(workspace) => {
            let phase = phase_from(0, workspace.repos.len(), keep_files);
            Ok(Removal { name: own(name), workspace, keep_files, phase, failure: None })
        },
    }
}

impl Removal {
    /// The phase refers to a repo of the workspace.
    pub open spec fn wf(&self) -> bool {
        in_bounds(self.phase, self.workspace.repos@.len())
    }

    /// What is to be done next.
    pub fn task(&self) -> (r: Task)
        requires
            self.wf(),
        ensures
            r@ == task_of(self.phase, self.name@, self.workspace.deep_view()),
    {
        match self.phase {
            Phase::Removing(i) => Task::RemoveWorktree {
                repo: self.workspace.repos[i].name.clone(),
                source: self.workspace.repos[i].source.clone(),
                target: self.workspace.repos[i].worktree_path.clone(),
                force: false,
            },
            Phase::Forcing(i) => Task::RemoveWorktree {
                repo: self.workspace.repos[i].name.clone(),
                source: self.workspace.repos[i].source.clone(),
                target: self.workspace.repos[i].worktree_path.clone(),
                force: true,
            },
            Phase::Unregistering(i) => Task::Unlink {
                repo: self.workspace.repos[i].name.clone(),
                link: worktree_link(self.workspace.repos[i].worktree_path.as_str()),
            },
            Phase::Pruning(i) => Task::Prune {
                repo: self.workspace.repos[i].name.clone(),
                source: self.workspace.repos[i].source.clone(),
            },
            Phase::DeletingBranch(i) => Task::DeleteBranch {
                repo: self.workspace.repos[i].name.clone(),
                source: self.workspace.repos[i].source.clone(),
                branch: self.workspace.repos[i].branch.clone(),
            },
            Phase::RemovingDir => Task::RemoveDir { path: self.workspace.workspace.path.clone() },
            Phase::Forgetting => Task::Forget { name: self.name.clone() },
            Phase::Done => Task::Finish,
        }
    }

    /// Goes on after the task has been done.
    pub fn advance(&mut self, done: Result<(), Error>)
        requires
            old(self).wf(),
        ensures
            final(self).wf(),
            final(self).name == old(self).name,
            final(self).workspace == old(self).workspace,
            final(self).keep_files == old(self).keep_files,
            final(self).phase == next(
                old(self).phase,
                old(self).workspace.repos@.len(),
                old(self).keep_files,
                done is Ok,
            ),
            final(self).failure == (if done is Err && fatal(old(self).phase) {
                Some(done->Err_0)
            } else {
                old(self).failure
            }),
    {
        let n = self.workspace.repos.len();
        let ok = done.is_ok();
        let was = self.phase;
        self.phase = match was {
            Phase::Removing(i) => if ok {
                Phase::DeletingBranch(i)
            } else {
                Phase::Forcing(i)
            },
            Phase::Forcing(i) => Phase::DeletingBranch(i),
            Phase::Unregistering(i) => Phase::Pruning(i),
            Phase::Pruning(i) => Phase::DeletingBranch(i),
            Phase::DeletingBranch(i) => phase_from(i + 1, n, self.keep_files),
            Phase::RemovingDir => if ok {
                Phase::Forgetting
            } else {
                Phase::Done
            },
            _ => Phase::Done,
        };
        let fatal = match was {
            Phase::RemovingDir => true,
            Phase::Forgetting => true,
            _ => false,
        };
        if let Err(e) = done {
            if fatal {
                self.failure = Some(e);
            }
        }
    }

    /// What the removal came to.
    pub fn finish(self) -> (r: Result<(), Error>)
        ensures
            r == (match self.failure {
                Some(e) => Err(e),
                None => Ok(()),
            }),
    {
        match self.failure {
            Some(e) => Err(e),
            None => Ok(()),
        }
    }
}

/// The phase that the removal of `n` repos is in after these outcomes.
pub open spec fn phase_after(n: nat, keep_files: bool, outcomes: Seq<bool>) -> Phase
    decreases outcomes.len(),
{
    if outcomes.len() == 0 {
        from_repo(0, n, keep_files)
    } else {
        next(phase_after(n, keep_files, outcomes.drop_last()), n, keep_files, outcomes.last())
    }
}

/// Where the files are to be kept, no worktree is ever removed, by force or
/// otherwise, and neither is the directory.
pub proof fn files_kept(n: nat, outcomes: Seq<bool>)
    ensures
        !(phase_after(n, true, outcomes) is Removing),
        !(phase_after(n, true, outcomes) is Forcing),
        phase_after(n, true, outcomes) != Phase::RemovingDir,
        forall|name: Seq<char>, w: WorkspaceConfigView|
            !((#[trigger] task_of(phase_after(n, true, outcomes), name, w)) is RemoveWorktree) && !(
            task_of(phase_after(n, true, outcomes), name, w) is RemoveDir),
    decreases outcomes.len(),
{
    if outcomes.len() > 0 {
        files_kept(n, outcomes.drop_last());
    }
}

/// Whatever happens to the worktree and the branch of a repo, both are asked
/// for, a worktree that does not go by force too, and the removal goes on with
/// the next repo.
pub proof fn every_repo_tried(n: nat, keep_files: bool, i: usize, forced: bool, deleted: bool)
    requires
        i < n,
        n <= usize::MAX,
    ensures
        next(Phase::Removing(i), n, keep_files, true) == Phase::DeletingBranch(i),
        next(Phase::Removing(i), n, keep_files, false) == Phase::Forcing(i),
        next(Phase::Forcing(i), n, keep_files, forced) == Phase::DeletingBranch(i),
        next(Phase::DeletingBranch(i), n, keep_files, deleted) == from_repo(i + 1, n, keep_files),
{
}

/// Where the files are to be kept, every worktree is taken out of git all the
/// same, whatever came of those before: the phases of the repo at `i` are these
/// three in a row, and the last repo is followed by forgetting the workspace.
pub proof fn every_worktree_unregistered(n: nat, outcomes: Seq<bool>)
    requires
        n <= usize::MAX,
        outcomes.len() <= 3 * n,
    ensures
        phase_after(n, true, outcomes) == (if outcomes.len() == 3 * n {
            Phase::Forgetting
        } else if outcomes.len() % 3 == 0 {
            Phase::Unregistering((outcomes.len() / 3) as usize)
        } else if outcomes.len() % 3 == 1 {
            Phase::Pruning((outcomes.len() / 3) as usize)
        } else {
            Phase::DeletingBranch((outcomes.len() / 3) as usize)
        }),
    decreases outcomes.len(),
{
    if outcomes.len() > 0 {
        every_worktree_unregistered(n, outcomes.drop_last());
    }
}

/// Only what is remembered under the name that was given is ever forgotten; and
/// where the files are to be kept, it is, once every repo has been gone through,
/// whatever came of them.
pub proof fn given_name_forgotten(
    n: nat,
    keep_files: bool,
    outcomes: Seq<bool>,
    name: Seq<char>,
    w: WorkspaceConfigView,
)
    requires
        n <= usize::MAX,
    ensures
        task_of(phase_after(n, keep_files, outcomes), name, w) is Forget ==> task_of(
            phase_after(n, keep_files, outcomes),
            name,
            w,
        ) == (TaskView::Forget { name }),
        keep_files && outcomes.len() == 3 * n ==> task_of(
            phase_after(n, keep_files, outcomes),
            name,
            w,
        ) == (TaskView::Forget { name }),
{
    if keep_files && outcomes.len() == 3 * n {
        every_worktree_unregistered(n, outcomes);
    }
}

/// Whatever a removal asks git for, it asks it in the source that is remembered
/// for a repo of the workspace, never in a worktree: a worktree is gone by then.
/// It is the worktree and the branch that are remembered for that same repo that
/// are taken away, and nothing else.
pub proof fn git_runs_in_source(p: Phase, name: Seq<char>, w: WorkspaceConfigView)
    requires
        in_bounds(p, w.repos.len()),
    ensures
        match task_of(p, name, w) {
            TaskView::RemoveWorktree { repo, source, target, .. } => exists|i: int|
                0 <= i < w.repos.len() && (#[trigger] w.repos[i]).name == repo && w.repos[i].source
                    == source && w.repos[i].worktree_path == target && (p == Phase::Removing(
                    i as usize,
                ) || p == Phase::Forcing(i as usize)),
            TaskView::Unlink { repo, link } => exists|i: int|
                0 <= i < w.repos.len() && (#[trigger] w.repos[i]).name == repo && link
                    == joined_path(w.repos[i].worktree_path, ".git"@) && p == Phase::Unregistering(
                    i as usize,
                ),
            TaskView::Prune { repo, source } => exists|i: int|
                0 <= i < w.repos.len() && (#[trigger] w.repos[i]).name == repo && w.repos[i].source
                    == source && p == Phase::Pruning(i as usize),
            TaskView::DeleteBranch { repo, source, branch } => exists|i: int|
                0 <= i < w.repos.len() && (#[trigger] w.repos[i]).name == repo && w.repos[i].source
                    == source && w.repos[i].branch == branch && p == Phase::DeletingBranch(
                    i as usize,
                ),
            TaskView::RemoveDir { path } => path == w.workspace.path && p == Phase::RemovingDir,
            TaskView::Forget { name: n } => n == name && p == Phase::Forgetting,
            TaskView::Finish => p == Phase::Done,
        },
        p is Forcing <==> (task_of(p, name, w) matches TaskView::RemoveWorktree { force, .. }
            && force),
{
    match p {
        Phase::Removing(i) => assert(w.repos[i as int].name == w.repos[i as int].name),
        Phase::Forcing(i) => assert(w.repos[i as int].name == w.repos[i as int].name),
        Phase::Unregistering(i) => assert(w.repos[i as int].name == w.repos[i as int].name),
        Phase::Pruning(i) => assert(w.repos[i as int].name == w.repos[i as int].name),
        Phase::DeletingBranch(i) => assert(w.repos[i as int].name == w.repos[i as int].name),
        _ => {},
    }
}

/// A removal takes back what a creation made: the worktree that git is asked to
/// remove is the one that it was asked to add, from the same source; the branch
/// that it is asked to delete is the one that it was asked to begin there; and the
/// directory that is removed is the one that was made.
pub proof fn removal_undoes_creation(
    plan: create::PlanView,
    created_at: Timestamp,
    name: Seq<char>,
    i: usize,
)
    requires
        i < plan.repos.len(),
    ensures
        ({
            let w = create::remembered(plan, created_at);
            let made = create::task_of(create::Phase::Adding(i), plan);
            &&& made is AddWorktree
            &&& task_of(Phase::Removing(i), name, w) == (TaskView::RemoveWorktree {
                repo: made->AddWorktree_repo,
                source: made->AddWorktree_source,
                target: made->AddWorktree_target,
                force: false,
            })
            &&& task_of(Phase::Pruning(i), name, w) == (TaskView::Prune {
                repo: made->AddWorktree_repo,
                source: made->AddWorktree_source,
            })
            &&& task_of(Phase::DeletingBranch(i), name, w) == (TaskView::DeleteBranch {
                repo: made->AddWorktree_repo,
                source: made->AddWorktree_source,
                branch: made->AddWorktree_branch,
            })
            &&& create::task_of(create::Phase::MakingDir, plan) is MakeDir
            &&& task_of(Phase::RemovingDir, name, w) == (TaskView::RemoveDir {
                path: create::task_of(create::Phase::MakingDir, plan)->MakeDir_path,
            })
        }),
{
}

/// Where every worktree goes at once, the repos are gone through in order, each
/// with its worktree first and then its branch, none left out; then the directory
/// is removed and the workspace forgotten.
pub proof fn removal_in_order(n: nat, outcomes: Seq<bool>)
    requires
        n <= usize::MAX,
        forall|i: int| 0 <= i < outcomes.len() ==> #[trigger] outcomes[i],
    ensures
        ({
            let k = outcomes.len();
            phase_after(n, false, outcomes) == (if k < 2 * n {
                if k % 2 == 0 {
                    Phase::Removing((k / 2) as usize)
                } else {
                    Phase::DeletingBranch((k / 2) as usize)
                }
            } else if k == 2 * n {
                Phase::RemovingDir
            } else if k == 2 * n + 1 {
                Phase::Forgetting
            } else {
                Phase::Done
            })
        }),
    decreases outcomes.len(),
{
    if outcomes.len() > 0 {
        let before = outcomes.drop_last();
        assert forall|i: int| 0 <= i < before.len() implies #[trigger] before[i] by {
            assert(outcomes[i]);
        }
        assert(outcomes[outcomes.len() - 1]);
        removal_in_order(n, before);
    }
}

/// A workspace is not forgotten while its directory is still there: where that
/// cannot be removed, the removal ends without forgetting it. Forgetting ends the
/// removal, whatever comes of it.
pub proof fn forgotten_last(n: nat, keep_files: bool, ok: bool)
    ensures
        next(Phase::RemovingDir, n, keep_files, true) == Phase::Forgetting,
        next(Phase::RemovingDir, n, keep_files, false) == Phase::Done,
        next(Phase::Forgetting, n, keep_files, ok) == Phase::Done,
        next(Phase::Done, n, keep_files, ok) == Phase::Done,
{
}

/// A removal never ends in silence: where it is over, either the workspace has
/// been forgotten, or something has failed that counts as the failure of the
/// removal. What comes of a worktree or a branch is no failure of it.
pub proof fn removal_failure_told(n: nat, keep_files: bool, outcomes: Seq<bool>, i: int)
    requires
        n <= usize::MAX,
        phase_after(n, keep_files, outcomes) == Phase::Done,
        0 <= i < outcomes.len(),
    ensures
        exists|k: int|
            0 <= k < outcomes.len() && (if #[trigger] outcomes[k] {
                phase_after(n, keep_files, outcomes.take(k)) == Phase::Forgetting
            } else {
                fatal(phase_after(n, keep_files, outcomes.take(k)))
            }),
        fatal(phase_after(n, keep_files, outcomes.take(i))) ==> !(phase_after(
            n,
            keep_files,
            outcomes.take(i),
        ) is Removing) && !(phase_after(n, keep_files, outcomes.take(i)) is DeletingBranch),
    decreases outcomes.len(),
{
    let before = outcomes.drop_last();
    let last = outcomes.len() - 1;
    assert(outcomes.take(last) =~= before);
    let p = phase_after(n, keep_files, before);
    if p == Phase::Done {
        if before.len() > 0 {
            removal_failure_told(n, keep_files, before, 0);
            let k = choose|k: int|
                0 <= k < before.len() && (if #[trigger] before[k] {
                    phase_after(n, keep_files, before.take(k)) == Phase::Forgetting
                } else {
                    fatal(phase_after(n, keep_files, before.take(k)))
                });
            assert(outcomes.take(k) =~= before.take(k));
            assert(outcomes[k] == before[k]);
        }
    } else {
        assert(outcomes[last] == outcomes.last());
    }
}

} // verus!
