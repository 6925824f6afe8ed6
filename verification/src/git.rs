//! What git is asked, and what its answers mean.
use vstd::prelude::*;

use crate::error::{outcome, Error, ErrorView};
use crate::paths::{join_path, joined_path};
use crate::text::{
    all_digits, cat, cat3, chars_of, decimal_law, decimal_of, first_word, is_digit, is_sep, lines,
    lines_of, occurs, occurs_at, own, own_all, parse_unsigned, parsed, starts_with, string_between,
    strip_prefix, trim, trimmed, words, words_of,
};

verus! {

/// What a process left behind.
#[derive(Debug)]
pub struct Output {
    pub success: bool,
    pub stdout: String,
    pub stderr: String,
}

/// What an [`Output`] stands for.
pub struct OutputView {
    pub success: bool,
    pub stdout: Seq<char>,
    pub stderr: Seq<char>,
}

impl View for Output {
    type V = OutputView;

    open spec fn view(&self) -> OutputView {
        OutputView { success: self.success, stdout: self.stdout@, stderr: self.stderr@ }
    }
}

// ---------------------------------------------------------------------------
// Worktrees and branches
// ---------------------------------------------------------------------------

/// What a command that is run for its effect comes to: an error that begins with
/// `what`, then names `subject`, where the process failed.
pub open spec fn effect_of(what: Seq<char>, subject: Seq<char>, o: OutputView) -> Result<
    (),
    ErrorView,
> {
    if o.success {
        Ok(())
    } else {
        Err(ErrorView::Git(what + " '"@ + subject + "': "@ + trimmed(o.stderr)))
    }
}

fn effect(what: &str, subject: &str, output: &Output) -> (r: Result<(), Error>)
    ensures
        outcome(r) == effect_of(what@, subject@, output@),
{
    if output.success {
        Ok(())
    } else {
        let head = cat3(what, " '", subject);
        let reason = trim(output.stderr.as_str());
        Err(Error::Git(cat3(head.as_str(), "': ", reason.as_str())))
    }
}

/// How git is asked whether `path` lies in a repository.
pub fn is_git_repo_args(path: &str) -> (r: Vec<String>)
    ensures
        r.deep_view() == seq!["-C"@, path@, "rev-parse"@, "--git-dir"@],
{
    let v = vec!["-C", path, "rev-parse", "--git-dir"];
    assert(v.deep_view() =~= seq!["-C"@, path@, "rev-parse"@, "--git-dir"@]);
    own_all(&v)
}

/// Whether `path` lies in a repository: whether git, where it could be run, says so.
pub fn is_git_repo(status: Option<bool>) -> (r: bool)
    ensures
        r == (status == Some(true)),
{
    match status {
        Some(success) => success,
        None => false,
    }
}

/// How git is asked to fetch.
pub fn fetch_args(source: &str) -> (r: Vec<String>)
    ensures
        r.deep_view() == seq!["-C"@, source@, "fetch"@],
{
    let v = vec!["-C", source, "fetch"];
    assert(v.deep_view() =~= seq!["-C"@, source@, "fetch"@]);
    own_all(&v)
}

/// What a fetch comes to.
pub fn fetch(source: &str, output: &Output) -> (r: Result<(), Error>)
    ensures
        outcome(r) == effect_of("Failed to fetch in"@, source@, output@),
{
    effect("Failed to fetch in", source, output)
}

/// The arguments that add a worktree on a new branch.
pub open spec fn worktree_add_words(
    source: Seq<char>,
    target: Seq<char>,
    branch: Seq<char>,
    start_point: Option<Seq<char>>,
) -> Seq<Seq<char>> {
    let a = seq!["-C"@, source, "worktree"@, "add"@, target, "-b"@, branch];
    match start_point {
        Some(s) => a.push(s),
        None => a,
    }
}

/// How git is asked to add a worktree on a new branch.
pub fn worktree_add_args(
    source: &str,
    target: &str,
    branch: &str,
    start_point: Option<&str>,
) -> (r: Vec<String>)
    ensures
        r.deep_view() == worktree_add_words(
            source@,
            target@,
            branch@,
            match start_point {
                Some(s) => Some(s@),
                None => None,
            },
        ),
{
    let mut v = vec!["-C", source, "worktree", "add", target, "-b", branch];
    assert(v.deep_view() =~= seq!["-C"@, source@, "worktree"@, "add"@, target@, "-b"@, branch@]);
    let ghost g = v.deep_view();
    if let Some(s) = start_point {
        v.push(s);
        assert(v.deep_view() =~= g.push(s@));
    }
    own_all(&v)
}

/// What adding a worktree comes to.
pub fn worktree_add(source: &str, output: &Output) -> (r: Result<(), Error>)
    ensures
        outcome(r) == effect_of("Failed to add worktree for"@, source@, output@),
{
    effect("Failed to add worktree for", source, output)
}

/// The arguments that remove a worktree.
pub open spec fn worktree_remove_words(
    source: Seq<char>,
    target: Seq<char>,
    force: bool,
) -> Seq<Seq<char>> {
    if force {
        seq!["-C"@, source, "worktree"@, "remove"@, "--force"@, target]
    } else {
        seq!["-C"@, source, "worktree"@, "remove"@, target]
    }
}

/// How git is asked to remove a worktree.
pub fn worktree_remove_args(source: &str, target: &str, force: bool) -> (r: Vec<String>)
    ensures
        r.deep_view() == worktree_remove_words(source@, target@, force),
{
    let mut v = vec!["-C", source, "worktree", "remove"];
    if force {
        v.push("--force");
    }
    v.push(target);
    assert(v.deep_view() =~= worktree_remove_words(source@, target@, force));
    own_all(&v)
}

/// What removing a worktree comes to.
pub fn worktree_remove(target: &str, output: &Output) -> (r: Result<(), Error>)
    ensures
        outcome(r) == effect_of("Failed to remove worktree"@, target@, output@),
{
    effect("Failed to remove worktree", target, output)
}

/// The file that links a worktree to git.
pub open spec fn link_of(target: Seq<char>) -> Seq<char> {
    joined_path(target, ".git"@)
}

/// The file that links a worktree to git. Without it the worktree is a directory
/// like any other, and git can be asked to forget it.
pub fn worktree_link(target: &str) -> (r: String)
    ensures
        r@ == link_of(target@),
{
    join_path(target, ".git")
}

/// How git is asked to forget the worktrees that no longer link to it.
pub fn worktree_prune_args(source: &str) -> (r: Vec<String>)
    ensures
        r.deep_view() == seq!["-C"@, source@, "worktree"@, "prune"@],
{
    let v = vec!["-C", source, "worktree", "prune"];
    assert(v.deep_view() =~= seq!["-C"@, source@, "worktree"@, "prune"@]);
    own_all(&v)
}

/// What forgetting worktrees comes to.
pub fn worktree_prune(source: &str, output: &Output) -> (r: Result<(), Error>)
    ensures
        outcome(r) == effect_of("Failed to prune worktrees of"@, source@, output@),
{
    effect("Failed to prune worktrees of", source, output)
}

/// How git is asked to delete a branch that has been merged.
pub fn delete_branch_args(source: &str, branch: &str) -> (r: Vec<String>)
    ensures
        r.deep_view() == seq!["-C"@, source@, "branch"@, "-d"@, branch@],
{
    let v = vec!["-C", source, "branch", "-d", branch];
    assert(v.deep_view() =~= seq!["-C"@, source@, "branch"@, "-d"@, branch@]);
    own_all(&v)
}

/// What deleting a branch comes to.
pub fn delete_branch(branch: &str, output: &Output) -> (r: Result<(), Error>)
    ensures
        outcome(r) == effect_of("Failed to delete branch"@, branch@, output@),
{
    effect("Failed to delete branch", branch, output)
}

// ---------------------------------------------------------------------------
// Diffs
// ---------------------------------------------------------------------------

/// The changes of a repo since its branch forked off, as git prints them.
#[derive(Debug)]
pub struct RepoDiff {
    /// What the changes are relative to, for display: a ref, or `HEAD` where only
    /// uncommitted changes could be shown.
    pub base_label: String,
    /// The diff, empty where nothing has changed.
    pub text: String,
}

/// What a [`RepoDiff`] stands for.
#[verifier::ext_equal]
pub struct RepoDiffView {
    pub base_label: Seq<char>,
    pub text: Seq<char>,
}

impl DeepView for RepoDiff {
    type V = RepoDiffView;

    open spec fn deep_view(&self) -> RepoDiffView {
        RepoDiffView { base_label: self.base_label@, text: self.text@ }
    }
}

/// A diff that is being made: what git has to be asked next.
#[derive(Debug)]
pub enum DiffState {
    /// Which is the first of these refs that git knows?
    Resolving(Vec<String>),
    /// Where did the branch fork off from this ref?
    Forking(String),
    /// What has changed since `against`?
    Running { label: String, against: String },
}

/// What a [`DiffState`] stands for.
pub enum DiffStateView {
    Resolving(Seq<Seq<char>>),
    Forking(Seq<char>),
    Running { label: Seq<char>, against: Seq<char> },
}

impl View for DiffState {
    type V = DiffStateView;

    open spec fn view(&self) -> DiffStateView {
        match self {
            DiffState::Resolving(refs) => DiffStateView::Resolving(refs.deep_view()),
            DiffState::Forking(base) => DiffStateView::Forking(base@),
            DiffState::Running { label, against } => DiffStateView::Running {
                label: label@,
                against: against@,
            },
        }
    }
}

/// How a diff goes on.
#[derive(Debug)]
pub enum DiffStep {
    Ask(DiffState),
    Done(RepoDiff),
    Failed(Error),
}

/// What a [`DiffStep`] stands for.
pub enum DiffStepView {
    Ask(DiffStateView),
    Done(RepoDiffView),
    Failed(ErrorView),
}

impl View for DiffStep {
    type V = DiffStepView;

    open spec fn view(&self) -> DiffStepView {
        match self {
            DiffStep::Ask(s) => DiffStepView::Ask(s@),
            DiffStep::Done(d) => DiffStepView::Done(d.deep_view()),
            DiffStep::Failed(e) => DiffStepView::Failed(e@),
        }
    }
}

/// Default branches, in the order in which they are tried.
pub open spec fn default_refs() -> Seq<Seq<char>> {
    seq!["origin/HEAD"@, "origin/main"@, "origin/master"@, "main"@, "master"@]
}

/// The refs that a diff may be relative to: the hint, then default branches.
pub open spec fn candidate_refs(base_hint: Option<Seq<char>>) -> Seq<Seq<char>> {
    match base_hint {
        Some(h) => seq![h] + default_refs(),
        None => default_refs(),
    }
}

/// The diff of uncommitted changes only.
pub open spec fn uncommitted() -> DiffStateView {
    DiffStateView::Running { label: "HEAD"@, against: "HEAD"@ }
}

/// What is being asked about a list of refs.
pub open spec fn resolving(refs: Seq<Seq<char>>) -> DiffStateView {
    if refs.len() == 0 {
        uncommitted()
    } else {
        DiffStateView::Resolving(refs)
    }
}

/// The line that git answered, where it succeeded and the line is not empty.
pub open spec fn answer(o: OutputView) -> Option<Seq<char>> {
    if o.success && trimmed(o.stdout).len() > 0 {
        Some(trimmed(o.stdout))
    } else {
        None
    }
}

/// How a diff goes on after an answer of git, or after the error that it could
/// not be run.
pub open spec fn diff_step(s: DiffStateView, o: Result<OutputView, ErrorView>) -> DiffStepView {
    let line = match o {
        Ok(out) => answer(out),
        Err(_) => None,
    };
    match s {
        DiffStateView::Resolving(refs) => if refs.len() == 0 {
            DiffStepView::Ask(uncommitted())
        } else if line is Some {
            DiffStepView::Ask(DiffStateView::Forking(refs[0]))
        } else {
            DiffStepView::Ask(resolving(refs.skip(1)))
        },
        DiffStateView::Forking(base) => match line {
            Some(fork) => DiffStepView::Ask(DiffStateView::Running { label: base, against: fork }),
            None => DiffStepView::Ask(uncommitted()),
        },
        DiffStateView::Running { label, against } => match o {
            Err(e) => DiffStepView::Failed(e),
            Ok(out) => if out.success {
                DiffStepView::Done(RepoDiffView { base_label: label, text: out.stdout })
            } else {
                DiffStepView::Failed(ErrorView::Git("git diff failed: "@ + trimmed(out.stderr)))
            },
        },
    }
}

/// The arguments of what is asked next about the worktree `wt`.
pub open spec fn diff_words(s: DiffStateView, wt: Seq<char>) -> Seq<Seq<char>> {
    match s {
        DiffStateView::Resolving(refs) => seq![
            "-C"@,
            wt,
            "rev-parse"@,
            "--verify"@,
            "--quiet"@,
            (if refs.len() > 0 {
                refs[0]
            } else {
                "HEAD"@
            }) + "^{commit}"@,
        ],
        DiffStateView::Forking(base) => seq!["-C"@, wt, "merge-base"@, base, "HEAD"@],
        DiffStateView::Running { label, against } => seq!["-C"@, wt, "diff"@, against],
    }
}

/// Begins a diff against the commit that a branch forked off from. `base_hint`
/// is the ref that it was branched from.
pub fn begin_diff(base_hint: Option<&str>) -> (r: DiffState)
    ensures
        r@ == DiffStateView::Resolving(
            candidate_refs(
                match base_hint {
                    Some(h) => Some(h@),
                    None => None,
                },
            ),
        ),
{
    let mut refs: Vec<&str> = Vec::new();
    if let Some(h) = base_hint {
        refs.push(h);
    }
    refs.push("origin/HEAD");
    refs.push("origin/main");
    refs.push("origin/master");
    refs.push("main");
    refs.push("master");
    assert(refs.deep_view() =~= candidate_refs(
        match base_hint {
            Some(h) => Some(h@),
            None => None,
        },
    ));
    DiffState::Resolving(own_all(&refs))
}

impl DiffState {
    /// How git is asked what is to be known next about the worktree `wt`.
    pub fn args(&self, wt: &str) -> (r: Vec<String>)
        ensures
            r.deep_view() == diff_words(self@, wt@),
    {
        match self {
            DiffState::Resolving(refs) => {
                let base = if refs.len() > 0 {
                    refs[0].as_str()
                } else {
                    "HEAD"
                };
                let commit = cat(base, "^{commit}");
                let v = vec!["-C", wt, "rev-parse", "--verify", "--quiet", commit.as_str()];
                assert(v.deep_view() =~= diff_words(self@, wt@));
                own_all(&v)
            },
            DiffState::Forking(base) => {
                let v = vec!["-C", wt, "merge-base", base.as_str(), "HEAD"];
                assert(v.deep_view() =~= diff_words(self@, wt@));
                own_all(&v)
            },
            DiffState::Running { label: _, against } => {
                let v = vec!["-C", wt, "diff", against.as_str()];
                assert(v.deep_view() =~= diff_words(self@, wt@));
                own_all(&v)
            },
        }
    }
}

fn uncommitted_state() -> (r: DiffState)
    ensures
        r@ == uncommitted(),
{
    DiffState::Running { label: own("HEAD"), against: own("HEAD") }
}

/// The line that git answered, where it succeeded and the line is not empty.
fn answered(output: &Result<Output, Error>) -> (r: Option<String>)
    ensures
        r.deep_view() == (match output {
            Ok(o) => answer(o@),
            Err(_) => None,
        }),
{
    match output {
        Ok(o) => {
            let line = trim(o.stdout.as_str());
            let cs = chars_of(line.as_str());
            if o.success && cs.len() > 0 {
                Some(line)
            } else {
                None
            }
        },
        Err(_) => None,
    }
}

/// Carries a diff on with an answer of git, or with the error that it could not
/// be run. The first ref that git knows is the base; the diff is against the
/// point where the branch forked off from it, or of uncommitted changes only
/// where there is none.
pub fn diff(state: DiffState, output: Result<Output, Error>) -> (r: DiffStep)
    ensures
        r@ == diff_step(
            state@,
            match output {
                Ok(o) => Ok(o@),
                Err(e) => Err(e@),
            },
        ),
{
    let line = answered(&output);
    match state {
        DiffState::Resolving(refs) => {
            let ghost g = refs.deep_view();
            let mut refs = refs;
            if refs.len() == 0 {
                return DiffStep::Ask(uncommitted_state());
            }
            let first = refs.remove(0);
            assert(refs.deep_view() =~= g.skip(1));
            if line.is_some() {
                DiffStep::Ask(DiffState::Forking(first))
            } else if refs.len() == 0 {
                DiffStep::Ask(uncommitted_state())
            } else {
                DiffStep::Ask(DiffState::Resolving(refs))
            }
        },
        DiffState::Forking(base) => match line {
            Some(fork) => DiffStep::Ask(DiffState::Running { label: base, against: fork }),
            None => DiffStep::Ask(uncommitted_state()),
        },
        DiffState::Running { label, against: _ } => match output {
            Err(e) => DiffStep::Failed(e),
            Ok(o) => if o.success {
                DiffStep::Done(RepoDiff { base_label: label, text: o.stdout })
            } else {
                let reason = trim(o.stderr.as_str());
                DiffStep::Failed(Error::Git(cat("git diff failed: ", reason.as_str())))
            },
        },
    }
}

/// What a diff comes to, if `git` gives the answers.
pub open spec fn diff_result(
    s: DiffStateView,
    git: spec_fn(DiffStateView) -> Result<OutputView, ErrorView>,
) -> Result<RepoDiffView, ErrorView>
    decreases
            (match s {
                DiffStateView::Resolving(refs) => refs.len() + 2,
                DiffStateView::Forking(_) => 1nat,
                DiffStateView::Running { .. } => 0nat,
            }),
{
    match diff_step(s, git(s)) {
        DiffStepView::Done(d) => Ok(d),
        DiffStepView::Failed(e) => Err(e),
        DiffStepView::Ask(t) => diff_result(t, git),
    }
}

/// The first of the refs that `git` knows.
pub open spec fn first_known(
    refs: Seq<Seq<char>>,
    knows: spec_fn(Seq<char>) -> bool,
) -> Option<Seq<char>>
    decreases refs.len(),
{
    if refs.len() == 0 {
        None
    } else if knows(refs[0]) {
        Some(refs[0])
    } else {
        first_known(refs.skip(1), knows)
    }
}

/// Git's answer, if there is one.
pub open spec fn line_of(o: Result<OutputView, ErrorView>) -> Option<Seq<char>> {
    match o {
        Ok(out) => answer(out),
        Err(_) => None,
    }
}

/// What a diff is relative to: the label and the commit.
pub open spec fn diff_base(
    refs: Seq<Seq<char>>,
    knows: spec_fn(Seq<char>) -> bool,
    fork: spec_fn(Seq<char>) -> Option<Seq<char>>,
) -> DiffStateView {
    match first_known(refs, knows) {
        None => uncommitted(),
        Some(base) => match fork(base) {
            Some(commit) => DiffStateView::Running { label: base, against: commit },
            None => uncommitted(),
        },
    }
}

/// A diff is relative to the first ref that git knows among the hint and the
/// default branches, at the point where the branch forked off from it; and
/// where no ref is known, or nothing is shared with it, the diff is that of the
/// uncommitted changes.
pub proof fn diff_law(
    refs: Seq<Seq<char>>,
    git: spec_fn(DiffStateView) -> Result<OutputView, ErrorView>,
    knows: spec_fn(Seq<char>) -> bool,
    fork: spec_fn(Seq<char>) -> Option<Seq<char>>,
)
    requires
        forall|rs: Seq<Seq<char>>|
            rs.len() > 0 ==> knows(rs[0]) == (line_of(#[trigger] git(DiffStateView::Resolving(rs)))
                is Some),
        forall|b: Seq<char>|
            fork(b) == line_of(#[trigger] git(DiffStateView::Forking(b))),
    ensures
        diff_result(DiffStateView::Resolving(refs), git) == diff_result(
            diff_base(refs, knows, fork),
            git,
        ),
    decreases refs.len(),
{
    reveal_with_fuel(diff_result, 3);
    let s = DiffStateView::Resolving(refs);
    if refs.len() > 0 {
        assert(knows(refs[0]) == (line_of(git(s)) is Some));
        if knows(refs[0]) {
            assert(diff_step(s, git(s)) == DiffStepView::Ask(DiffStateView::Forking(refs[0])));
            assert(fork(refs[0]) == line_of(git(DiffStateView::Forking(refs[0]))));
        } else if refs.len() > 1 {
            diff_law(refs.skip(1), git, knows, fork);
        } else {
            assert(first_known(refs.skip(1), knows) is None);
        }
    }
}

// ---------------------------------------------------------------------------
// Status
// ---------------------------------------------------------------------------

/// The state of a worktree.
#[derive(Debug)]
pub struct RepoStatus {
    pub branch: String,
    pub ahead: u32,
    pub behind: u32,
    pub changed: u32,
    pub untracked: u32,
}

/// What a [`RepoStatus`] stands for.
#[verifier::ext_equal]
pub struct RepoStatusView {
    pub branch: Seq<char>,
    pub ahead: nat,
    pub behind: nat,
    pub changed: nat,
    pub untracked: nat,
}

impl DeepView for RepoStatus {
    type V = RepoStatusView;

    open spec fn deep_view(&self) -> RepoStatusView {
        RepoStatusView {
            branch: self.branch@,
            ahead: self.ahead as nat,
            behind: self.behind as nat,
            changed: self.changed as nat,
            untracked: self.untracked as nat,
        }
    }
}

/// `s` without the run of `c` that it begins with.
pub open spec fn without_leading(s: Seq<char>, c: char) -> Seq<char>
    decreases s.len(),
{
    if s.len() > 0 && s[0] == c {
        without_leading(s.skip(1), c)
    } else {
        s
    }
}

/// A count of commits behind its sign, 0 where it is none.
pub open spec fn commits(s: Seq<char>, sign: char) -> nat {
    match parsed(without_leading(s, sign), u32::MAX as nat) {
        Some(n) => n,
        None => 0,
    }
}

/// What one line of the answer adds.
pub open spec fn with_line(s: RepoStatusView, line: Seq<char>) -> RepoStatusView {
    let head = "# branch.head "@;
    let ab = "# branch.ab "@;
    if head.is_prefix_of(line) {
        RepoStatusView { branch: line.skip(head.len() as int), ..s }
    } else if ab.is_prefix_of(line) {
        let parts = words_of(line.skip(ab.len() as int), false);
        if parts.len() == 2 {
            RepoStatusView {
                ahead: commits(parts[0], '+'),
                behind: commits(parts[1], '-'),
                ..s
            }
        } else {
            s
        }
    } else if "1 "@.is_prefix_of(line) || "2 "@.is_prefix_of(line) {
        RepoStatusView { changed: s.changed + 1, ..s }
    } else if "? "@.is_prefix_of(line) {
        RepoStatusView { untracked: s.untracked + 1, ..s }
    } else {
        s
    }
}

/// What the lines of an answer say.
pub open spec fn status_of(lines: Seq<Seq<char>>) -> RepoStatusView
    decreases lines.len(),
{
    if lines.len() == 0 {
        RepoStatusView { branch: "(unknown)"@, ahead: 0, behind: 0, changed: 0, untracked: 0 }
    } else {
        with_line(status_of(lines.drop_last()), lines.last())
    }
}

/// How git is asked for the state of a worktree.
pub fn status_args(path: &str) -> (r: Vec<String>)
    ensures
        r.deep_view() == seq!["-C"@, path@, "status"@, "--porcelain=v2"@, "--branch"@],
{
    let v = vec!["-C", path, "status", "--porcelain=v2", "--branch"];
    assert(v.deep_view() =~= seq!["-C"@, path@, "status"@, "--porcelain=v2"@, "--branch"@]);
    own_all(&v)
}

/// A count of commits behind its sign, 0 where it is none.
fn count_commits(s: &str, sign: char) -> (r: u32)
    ensures
        r == commits(s@, sign),
{
    let cs = chars_of(s);
    let n = cs.len();
    let mut i: usize = 0;
    assert(s@.skip(0) =~= s@);
    while i < n && cs[i] == sign
        invariant
            n == cs@.len(),
            cs@ == s@,
            i <= n,
            without_leading(s@, sign) == without_leading(s@.skip(i as int), sign),
        decreases n - i,
    {
        assert(s@.skip(i as int).skip(1) =~= s@.skip(i + 1));
        i = i + 1;
    }
    let rest = string_between(&cs, i, n);
    assert(rest@ =~= s@.skip(i as int));
    match parse_unsigned(rest.as_str(), u32::MAX as u64) {
        Some(v) => v as u32,
        None => 0,
    }
}

proof fn lemma_counts(lines: Seq<Seq<char>>, i: int)
    requires
        0 <= i <= lines.len(),
    ensures
        status_of(lines.take(i)).changed <= status_of(lines).changed,
        status_of(lines.take(i)).untracked <= status_of(lines).untracked,
    decreases lines.len(),
{
    if i < lines.len() {
        lemma_counts(lines.drop_last(), i);
        assert(lines.drop_last().take(i) =~= lines.take(i));
    } else {
        assert(lines.take(i) =~= lines);
    }
}

/// The state of a worktree, by what git prints, where the counts fit.
pub fn status(output: &Output) -> (r: Result<RepoStatus, Error>)
    requires
        output.success ==> status_of(lines_of(output.stdout@)).changed <= u32::MAX
            && status_of(lines_of(output.stdout@)).untracked <= u32::MAX,
    ensures
        outcome(r) == (if output.success {
            Ok(status_of(lines_of(output.stdout@)))
        } else {
            Err(ErrorView::Git("git status failed: "@ + trimmed(output.stderr@)))
        }),
{
    if !output.success {
        let reason = trim(output.stderr.as_str());
        return Err(Error::Git(cat("git status failed: ", reason.as_str())));
    }
    let list = lines(output.stdout.as_str());
    let ghost g = list.deep_view();
    let mut s = RepoStatus {
        branch: own("(unknown)"),
        ahead: 0,
        behind: 0,
        changed: 0,
        untracked: 0,
    };
    for i in 0..list.len()
        invariant
            g == list.deep_view(),
            status_of(g).changed <= u32::MAX,
            status_of(g).untracked <= u32::MAX,
            s.deep_view() == status_of(g.take(i as int)),
    {
        let line = list[i].as_str();
        proof {
            assert(g.take(i + 1).drop_last() =~= g.take(i as int));
            assert(g.take(i + 1).last() == line@);
            lemma_counts(g, i + 1);
        }
        if let Some(rest) = strip_prefix(line, "# branch.head ") {
            s.branch = rest;
        } else if let Some(rest) = strip_prefix(line, "# branch.ab ") {
            let parts = words(rest.as_str(), false);
            assert(parts.deep_view().len() == parts@.len());
            if parts.len() == 2 {
                assert(parts.deep_view()[0] == parts@[0]@ && parts.deep_view()[1] == parts@[1]@);
                s.ahead = count_commits(parts[0].as_str(), '+');
                s.behind = count_commits(parts[1].as_str(), '-');
            }
        } else if starts_with(line, "1 ") || starts_with(line, "2 ") {
            s.changed = s.changed + 1;
        } else if starts_with(line, "? ") {
            s.untracked = s.untracked + 1;
        }
    }
    assert(g.take(g.len() as int) =~= g);
    Ok(s)
}

// ---------------------------------------------------------------------------
// What the answers of git come to
// ---------------------------------------------------------------------------

/// A line about a file that is tracked and has changed.
pub open spec fn is_change(line: Seq<char>) -> bool {
    line.len() >= 2 && (line[0] == '1' || line[0] == '2') && line[1] == ' '
}

/// A line about a file that is not tracked.
pub open spec fn is_new_file(line: Seq<char>) -> bool {
    line.len() >= 2 && line[0] == '?' && line[1] == ' '
}

/// As many files have changed, or are not tracked, as there are lines about such
/// files; no other line counts.
pub proof fn status_counts(lines: Seq<Seq<char>>)
    ensures
        status_of(lines).changed == lines.filter(|l: Seq<char>| is_change(l)).len(),
        status_of(lines).untracked == lines.filter(|l: Seq<char>| is_new_file(l)).len(),
    decreases lines.len(),
{
    reveal(Seq::filter);
    if lines.len() > 0 {
        status_counts(lines.drop_last());
        lemma_line_kinds(lines.last());
    }
}

proof fn lemma_line_kinds(line: Seq<char>)
    ensures
        "1 "@.is_prefix_of(line) || "2 "@.is_prefix_of(line) <==> is_change(line),
        "? "@.is_prefix_of(line) <==> is_new_file(line),
        "# branch.head "@.is_prefix_of(line) ==> line.len() > 0 && line[0] == '#' && line[9] == 'h',
        "# branch.ab "@.is_prefix_of(line) ==> line.len() > 0 && line[0] == '#' && line[9] == 'a',
{
    reveal_strlit("1 ");
    reveal_strlit("2 ");
    reveal_strlit("? ");
    reveal_strlit("# branch.head ");
    reveal_strlit("# branch.ab ");
    if line.len() >= 2 {
        assert(line.take(2) =~= seq![line[0], line[1]]);
        assert("1 "@ =~= seq!['1', ' ']);
        assert("2 "@ =~= seq!['2', ' ']);
        assert("? "@ =~= seq!['?', ' ']);
        assert(line.take(2)[0] == line[0] && line.take(2)[1] == line[1]);
        assert("1 "@[0] == '1' && "2 "@[0] == '2' && "? "@[0] == '?' && "1 "@[1] == ' ');
    }
    if "# branch.head "@.is_prefix_of(line) {
        assert(line.take(14)[0] == '#' && line.take(14)[9] == 'h');
    }
    if "# branch.ab "@.is_prefix_of(line) {
        assert(line.take(12)[0] == '#' && line.take(12)[9] == 'a');
    }
}

/// A line that names the branch gives it, and changes nothing else; no other line
/// changes the branch.
pub proof fn status_branch(lines: Seq<Seq<char>>, branch: Seq<char>, other: Seq<char>)
    requires
        !"# branch.head "@.is_prefix_of(other),
    ensures
        status_of(lines.push("# branch.head "@ + branch)) == (RepoStatusView {
            branch,
            ..status_of(lines)
        }),
        status_of(lines.push(other)).branch == status_of(lines).branch,
        status_of(Seq::empty()).branch == "(unknown)"@,
{
    let head = "# branch.head "@;
    let line = head + branch;
    assert(lines.push(line).drop_last() =~= lines);
    assert(lines.push(other).drop_last() =~= lines);
    assert(head =~= line.take(head.len() as int));
    assert(line.skip(head.len() as int) =~= branch);
}

/// How far a branch is ahead and behind is what its line says, in digits behind
/// their signs.
pub proof fn status_distance(lines: Seq<Seq<char>>, ahead: nat, behind: nat)
    requires
        ahead <= u32::MAX,
        behind <= u32::MAX,
    ensures
        status_of(
            lines.push("# branch.ab "@ + (seq!['+'] + decimal_of(ahead)) + " "@ + (seq!['-'] + decimal_of(
                behind,
            ))),
        ) == (RepoStatusView { ahead, behind, ..status_of(lines) }),
{
    reveal_strlit("# branch.ab ");
    reveal_strlit("# branch.head ");
    reveal_strlit(" ");
    let ab = "# branch.ab "@;
    let a = seq!['+'] + decimal_of(ahead);
    let b = seq!['-'] + decimal_of(behind);
    let line = ab + a + " "@ + b;
    assert(lines.push(line).drop_last() =~= lines);
    assert(ab =~= line.take(12));
    let rest = line.skip(12);
    assert(rest =~= a + (seq![' '] + b));
    lemma_line_kinds(line);
    assert(line[9] == 'a');
    decimal_law(ahead, u32::MAX as nat);
    decimal_law(behind, u32::MAX as nat);
    lemma_signed_word(decimal_of(ahead), '+');
    lemma_signed_word(decimal_of(behind), '-');
    lemma_two_words(a, b);
    assert(words_of(rest, false) == seq![a, b]);
}

proof fn lemma_signed_word(d: Seq<char>, sign: char)
    requires
        all_digits(d),
        sign == '+' || sign == '-',
    ensures
        forall|i: int| 0 <= i < (seq![sign] + d).len() ==> !is_sep(#[trigger] (seq![sign] + d)[i], false),
        without_leading(seq![sign] + d, sign) == d,
{
    let w = seq![sign] + d;
    assert forall|i: int| 0 <= i < w.len() implies !is_sep(#[trigger] w[i], false) by {
        if i > 0 {
            assert(is_digit(d[i - 1]));
            assert(w[i] == d[i - 1]);
        }
    }
    assert(w.skip(1) =~= d);
    assert(is_digit(d[0]));
    assert(without_leading(d, sign) == d);
}

proof fn lemma_two_words(a: Seq<char>, b: Seq<char>)
    requires
        a.len() > 0,
        b.len() > 0,
        forall|i: int| 0 <= i < a.len() ==> !is_sep(#[trigger] a[i], false),
        forall|i: int| 0 <= i < b.len() ==> !is_sep(#[trigger] b[i], false),
    ensures
        words_of(a + (seq![' '] + b), false) == seq![a, b],
{
    first_word(a, b);
    first_word(b, Seq::empty());
    assert(seq![a] + seq![b] =~= seq![a, b]);
}

/// An effect is there exactly where the process succeeded, and what went wrong is
/// told with what is concerned and with the last words of the process.
pub proof fn effect_told(what: Seq<char>, subject: Seq<char>, o: OutputView)
    ensures
        effect_of(what, subject, o) is Ok <==> o.success,
        !o.success ==> effect_of(what, subject, o)->Err_0 is Git && what.is_prefix_of(
            effect_of(what, subject, o)->Err_0->Git_0,
        ) && trimmed(o.stderr).is_suffix_of(effect_of(what, subject, o)->Err_0->Git_0) && occurs(
            effect_of(what, subject, o)->Err_0->Git_0,
            "'"@ + subject + "'"@,
        ),
{
    if !o.success {
        reveal_strlit(" '");
        reveal_strlit("'");
        reveal_strlit("': ");
        let m = what + " '"@ + subject + "': "@ + trimmed(o.stderr);
        let t = trimmed(o.stderr);
        let p = "'"@ + subject + "'"@;
        assert(what =~= m.take(what.len() as int));
        assert(t =~= m.subrange(m.len() - t.len(), m.len() as int));
        let k = what.len() as int + 1;
        assert(m.subrange(k, k + p.len()) =~= p);
        assert(occurs_at(m, p, k));
    }
}

/// The ref that a branch was begun from is tried before any default branch, and
/// every default branch is tried where that is not known.
pub proof fn hint_first(hint: Seq<char>, i: int)
    requires
        0 <= i < default_refs().len(),
    ensures
        candidate_refs(Some(hint))[0] == hint,
        candidate_refs(Some(hint)).len() == 1 + candidate_refs(None).len(),
        candidate_refs(Some(hint))[i + 1] == candidate_refs(None)[i],
        candidate_refs(None).contains("origin/HEAD"@),
        candidate_refs(None).contains("origin/main"@),
        candidate_refs(None).contains("origin/master"@),
        candidate_refs(None).contains("main"@),
        candidate_refs(None).contains("master"@),
        candidate_refs(None).len() == 5,
{
    let d = default_refs();
    assert(d[0] == "origin/HEAD"@ && d[1] == "origin/main"@ && d[2] == "origin/master"@);
    assert(d[3] == "main"@ && d[4] == "master"@);
}

/// Everything that is asked for a diff is asked in the worktree: whether a ref
/// names a commit, where the branch forked off from it, and what has changed since,
/// which takes in what is not committed.
pub proof fn diff_asked_in_worktree(refs: Seq<Seq<char>>, base: Seq<char>, fork: Seq<char>, wt: Seq<char>)
    requires
        refs.len() > 0,
    ensures
        diff_words(DiffStateView::Resolving(refs), wt).take(2) == seq!["-C"@, wt],
        diff_words(DiffStateView::Resolving(refs), wt).last() == refs[0] + "^{commit}"@,
        diff_words(DiffStateView::Forking(base), wt) == seq!["-C"@, wt, "merge-base"@, base, "HEAD"@],
        diff_words(DiffStateView::Running { label: base, against: fork }, wt) == seq![
            "-C"@,
            wt,
            "diff"@,
            fork,
        ],
        uncommitted() == (DiffStateView::Running { label: "HEAD"@, against: "HEAD"@ }),
{
    assert(diff_words(DiffStateView::Resolving(refs), wt).take(2) =~= seq!["-C"@, wt]);
}

/// A diff that git makes is shown as it is, relative to the ref that it was asked
/// for, and a diff that it cannot make is told.
pub proof fn diff_shown(label: Seq<char>, against: Seq<char>, o: OutputView)
    ensures
        o.success ==> diff_step(DiffStateView::Running { label, against }, Ok(o))
            == DiffStepView::Done(RepoDiffView { base_label: label, text: o.stdout }),
        !o.success ==> diff_step(DiffStateView::Running { label, against }, Ok(o)) is Failed,
        answer(o) is Some <==> o.success && trimmed(o.stdout).len() > 0,
        answer(o) is Some ==> answer(o)->0 == trimmed(o.stdout),
{
}

/// A worktree is added in its source, at its target, on a new branch, from the ref
/// that the branch starts from, where there is one. It is removed in its source too,
/// by force exactly where that is asked for.
pub proof fn worktrees_by_words(
    source: Seq<char>,
    target: Seq<char>,
    branch: Seq<char>,
    from: Seq<char>,
    force: bool,
)
    ensures
        ({
            let a = worktree_add_words(source, target, branch, Some(from));
            let n = worktree_add_words(source, target, branch, None);
            let r = worktree_remove_words(source, target, force);
            &&& a.take(2) == seq!["-C"@, source]
            &&& n.take(2) == seq!["-C"@, source]
            &&& r.take(2) == seq!["-C"@, source]
            &&& a.last() == from
            &&& a.drop_last() == n
            &&& n.skip(2) == seq!["worktree"@, "add"@, target, "-b"@, branch]
            &&& r.last() == target
            &&& r.skip(2).take(2) == seq!["worktree"@, "remove"@]
            &&& r.len() == (if force {
                6int
            } else {
                5int
            })
            &&& force ==> r[4] == "--force"@
        }),
        link_of(target) == joined_path(target, ".git"@),
{
    let a = worktree_add_words(source, target, branch, Some(from));
    let n = worktree_add_words(source, target, branch, None);
    let r = worktree_remove_words(source, target, force);
    assert(a.take(2) =~= seq!["-C"@, source]);
    assert(n.take(2) =~= seq!["-C"@, source]);
    assert(r.take(2) =~= seq!["-C"@, source]);
    assert(a.drop_last() =~= n);
    assert(n.skip(2) =~= seq!["worktree"@, "add"@, target, "-b"@, branch]);
    assert(r.skip(2).take(2) =~= seq!["worktree"@, "remove"@]);
}

} // verus!
