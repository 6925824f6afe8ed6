//! What git is asked, and what its answers mean.
use cutter::error::Error;
use cutter::git::{
    begin_diff, delete_branch, delete_branch_args, diff, fetch, fetch_args, is_git_repo,
    is_git_repo_args, status, status_args, worktree_add, worktree_add_args, worktree_link,
    worktree_prune, worktree_prune_args, worktree_remove, worktree_remove_args, DiffStep, Output, RepoDiff, RepoStatus,
};

fn ok(stdout: &str) -> Output {
    Output { success: true, stdout: stdout.into(), stderr: String::new() }
}

fn bad(stderr: &str) -> Output {
    Output { success: false, stdout: String::new(), stderr: stderr.into() }
}

fn said(r: Result<(), Error>) -> String {
    match r {
        Ok(()) => String::new(),
        Err(e) => e.message(),
    }
}

#[test]
fn git_is_asked_with_arguments() {
    assert_eq!(is_git_repo_args("/r").join(" "), "-C /r rev-parse --git-dir");
    assert_eq!(fetch_args("/r").join(" "), "-C /r fetch");
    assert_eq!(
        worktree_add_args("/r", "/w/r", "feat", Some("origin/main")).join(" "),
        "-C /r worktree add /w/r -b feat origin/main"
    );
    assert_eq!(
        worktree_add_args("/r", "/w/r", "feat", None).join(" "),
        "-C /r worktree add /w/r -b feat"
    );
    assert_eq!(worktree_remove_args("/r", "/w/r", false).join(" "), "-C /r worktree remove /w/r");
    assert_eq!(
        worktree_remove_args("/r", "/w/r", true).join(" "),
        "-C /r worktree remove --force /w/r"
    );
    assert_eq!(delete_branch_args("/r", "feat").join(" "), "-C /r branch -d feat");
    assert_eq!(worktree_prune_args("/r").join(" "), "-C /r worktree prune");
    assert_eq!(worktree_link("/w/r"), "/w/r/.git");
    assert_eq!(status_args("/w/r").join(" "), "-C /w/r status --porcelain=v2 --branch");
}

#[test]
fn failures_are_told_with_what_git_said() {
    assert_eq!(said(fetch("/r", &ok(""))), "");
    assert_eq!(said(fetch("/r", &bad(" no\n"))), "Git error: Failed to fetch in '/r': no");
    assert_eq!(said(worktree_add("/r", &ok("x"))), "");
    assert_eq!(
        said(worktree_add("/r", &bad("no"))),
        "Git error: Failed to add worktree for '/r': no"
    );
    assert_eq!(said(worktree_remove("/w", &ok(""))), "");
    assert_eq!(
        said(worktree_remove("/w", &bad("no"))),
        "Git error: Failed to remove worktree '/w': no"
    );
    assert_eq!(said(worktree_prune("/r", &ok(""))), "");
    assert_eq!(
        said(worktree_prune("/r", &bad("no"))),
        "Git error: Failed to prune worktrees of '/r': no"
    );
    assert_eq!(said(delete_branch("b", &ok(""))), "");
    assert_eq!(said(delete_branch("b", &bad("no"))), "Git error: Failed to delete branch 'b': no");
}

#[test]
fn a_repo_is_one_where_git_says_so() {
    assert!(is_git_repo(Some(true)));
    assert!(!is_git_repo(Some(false)));
    assert!(!is_git_repo(None));
}

fn shown(s: RepoStatus) -> (String, u32, u32, u32, u32) {
    (s.branch, s.ahead, s.behind, s.changed, s.untracked)
}

#[test]
fn status_is_read_line_by_line() {
    let text = "# branch.oid 1\n# branch.head feat\n# branch.upstream o\n# branch.ab +2 -3\n\
                1 .M N... a\n2 R. N... b\r\n? c\n! d\nu UU e\n";
    assert_eq!(shown(status(&ok(text)).unwrap()), ("feat".into(), 2, 3, 2, 1));
    assert_eq!(shown(status(&ok("")).unwrap()), ("(unknown)".into(), 0, 0, 0, 0));
}

#[test]
fn counts_that_make_no_sense_are_none() {
    let head = |ab: &str| shown(status(&ok(&format!("# branch.ab {ab}\n"))).unwrap());
    assert_eq!(head("+1"), ("(unknown)".into(), 0, 0, 0, 0));
    assert_eq!(head("+x -4"), ("(unknown)".into(), 0, 4, 0, 0));
    assert_eq!(head("++1 --2"), ("(unknown)".into(), 1, 2, 0, 0));
    assert_eq!(head("+4294967295 -4294967296"), ("(unknown)".into(), u32::MAX, 0, 0, 0));
}

#[test]
fn a_failed_status_is_an_error() {
    assert_eq!(said(status(&bad("oops\n")).map(|_| ())), "Git error: git status failed: oops");
}

/// Runs a diff, answering each question by what is listed for it, and failing
/// where nothing is.
fn run(hint: Option<&str>, answers: &[(&str, Output)]) -> (Vec<String>, Result<RepoDiff, String>) {
    let mut asked = Vec::new();
    let mut state = begin_diff(hint);
    loop {
        let args = state.args("/w");
        let question = args[2..].join(" ");
        let answer = answers
            .iter()
            .find(|(q, _)| *q == question)
            .map(|(_, o)| Output {
                success: o.success,
                stdout: o.stdout.clone(),
                stderr: o.stderr.clone(),
            })
            .unwrap_or_else(|| bad("?"));
        asked.push(question);
        match diff(state, Ok(answer)) {
            DiffStep::Ask(s) => state = s,
            DiffStep::Done(d) => return (asked, Ok(d)),
            DiffStep::Failed(e) => return (asked, Err(e.message())),
        }
    }
}

#[test]
fn diffs_are_relative_to_the_fork_point() {
    let (asked, d) = run(
        Some("dev"),
        &[
            ("rev-parse --verify --quiet dev^{commit}", ok("1\n")),
            ("merge-base dev HEAD", ok(" 2\n")),
            ("diff 2", ok("+x\n")),
        ],
    );
    let d = d.unwrap();
    assert_eq!((d.base_label.as_str(), d.text.as_str()), ("dev", "+x\n"));
    assert_eq!(asked.len(), 3);
}

#[test]
fn the_first_ref_that_resolves_is_taken() {
    let (asked, d) = run(
        Some("gone"),
        &[
            ("rev-parse --verify --quiet origin/HEAD^{commit}", ok("\n")),
            ("rev-parse --verify --quiet main^{commit}", ok("1")),
            ("merge-base main HEAD", ok("3")),
            ("diff 3", ok("")),
        ],
    );
    assert_eq!(d.unwrap().base_label, "main");
    assert_eq!(
        asked,
        vec![
            "rev-parse --verify --quiet gone^{commit}",
            "rev-parse --verify --quiet origin/HEAD^{commit}",
            "rev-parse --verify --quiet origin/main^{commit}",
            "rev-parse --verify --quiet origin/master^{commit}",
            "rev-parse --verify --quiet main^{commit}",
            "merge-base main HEAD",
            "diff 3",
        ]
    );
}

#[test]
fn without_shared_history_only_uncommitted_work_is_shown() {
    let (_, d) = run(None, &[("diff HEAD", ok("-y\n"))]);
    assert_eq!(d.unwrap().base_label, "HEAD");
    let (asked, d) = run(
        None,
        &[("rev-parse --verify --quiet origin/HEAD^{commit}", ok("1")), ("diff HEAD", ok("-y\n"))],
    );
    assert_eq!(d.unwrap().base_label, "HEAD");
    assert_eq!(asked.len(), 3);
}

#[test]
fn a_diff_that_fails_is_an_error() {
    let (_, d) = run(None, &[("diff HEAD", bad(" broken "))]);
    assert_eq!(d.unwrap_err(), "Git error: git diff failed: broken");
    let state = begin_diff(None);
    assert!(matches!(diff(state, Err(Error::Io("x".into()))), DiffStep::Ask(_)));
}
