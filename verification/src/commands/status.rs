//! The state of the repos of a workspace.
use vstd::prelude::*;

use crate::error::{Error, ErrorView};
use crate::git::{RepoStatus, RepoStatusView};
use crate::text::{cat, decimal, decimal_of, join, joined, own};

verus! {

/// How a line is to be read at a glance.
#[derive(Debug, Clone, Copy, PartialEq, Eq, Structural)]
pub enum Tone {
    Good,
    Notable,
    Bad,
}

/// A line of the table.
#[derive(Debug)]
pub struct StatusRow {
    pub name: String,
    pub branch: String,
    pub status: String,
    pub tone: Tone,
}

/// What a [`StatusRow`] stands for.
#[verifier::ext_equal]
pub struct StatusRowView {
    pub name: Seq<char>,
    pub branch: Seq<char>,
    pub status: Seq<char>,
    pub tone: Tone,
}

impl DeepView for StatusRow {
    type V = StatusRowView;

    open spec fn deep_view(&self) -> StatusRowView {
        StatusRowView {
            name: self.name@,
            branch: self.branch@,
            status: self.status@,
            tone: self.tone,
        }
    }
}

/// A list with one more part, unless what it counts is nothing.
pub open spec fn counted(list: Seq<Seq<char>>, n: nat, part: Seq<char>) -> Seq<Seq<char>> {
    if n > 0 {
        list.push(part)
    } else {
        list
    }
}

/// What there is to say of a worktree.
pub open spec fn remarks(s: RepoStatusView) -> Seq<Seq<char>> {
    let none: Seq<Seq<char>> = Seq::empty();
    let a = counted(none, s.changed, decimal_of(s.changed) + " changed"@);
    let b = counted(a, s.untracked, decimal_of(s.untracked) + " untracked"@);
    let c = counted(b, s.ahead, "ahead "@ + decimal_of(s.ahead));
    counted(c, s.behind, "behind "@ + decimal_of(s.behind))
}

/// The line for a repo.
pub open spec fn status_row(
    name: Seq<char>,
    status: Result<RepoStatusView, ErrorView>,
) -> StatusRowView {
    match status {
        Ok(s) => if remarks(s).len() == 0 {
            StatusRowView { name, branch: s.branch, status: "clean"@, tone: Tone::Good }
        } else {
            StatusRowView {
                name,
                branch: s.branch,
                status: joined(remarks(s), ", "@),
                tone: Tone::Notable,
            }
        },
        Err(e) => StatusRowView {
            name,
            branch: "?"@,
            status: "error: "@ + e.message(),
            tone: Tone::Bad,
        },
    }
}

/// The line for a repo, by the state of its worktree or what is wrong with it.
pub fn row(name: &str, status: Result<RepoStatus, Error>) -> (r: StatusRow)
    ensures
        r.deep_view() == status_row(
            name@,
            match status {
                Ok(s) => Ok(s.deep_view()),
                Err(e) => Err(e@),
            },
        ),
{
    match status {
        Ok(s) => {
            let ghost none: Seq<Seq<char>> = Seq::empty();
            let ghost v = s.deep_view();
            let ghost a = counted(none, v.changed, decimal_of(v.changed) + " changed"@);
            let ghost b = counted(a, v.untracked, decimal_of(v.untracked) + " untracked"@);
            let ghost c = counted(b, v.ahead, "ahead "@ + decimal_of(v.ahead));
            let mut parts: Vec<String> = Vec::new();
            if s.changed > 0 {
                let n = decimal(s.changed as u64);
                parts.push(cat(n.as_str(), " changed"));
            }
            assert(parts.deep_view() =~= a);
            if s.untracked > 0 {
                let n = decimal(s.untracked as u64);
                parts.push(cat(n.as_str(), " untracked"));
            }
            assert(parts.deep_view() =~= b);
            if s.ahead > 0 {
                let n = decimal(s.ahead as u64);
                parts.push(cat("ahead ", n.as_str()));
            }
            assert(parts.deep_view() =~= c);
            if s.behind > 0 {
                let n = decimal(s.behind as u64);
                parts.push(cat("behind ", n.as_str()));
            }
            assert(parts.deep_view() =~= remarks(v));
            if parts.len() == 0 {
                StatusRow {
                    name: own(name),
                    branch: s.branch,
                    status: own("clean"),
                    tone: Tone::Good,
                }
            } else {
                let status = join(&parts, ", ");
                StatusRow { name: own(name), branch: s.branch, status, tone: Tone::Notable }
            }
        },
        Err(e) => {
            let message = e.message();
            StatusRow {
                name: own(name),
                branch: own("?"),
                status: cat("error: ", message.as_str()),
                tone: Tone::Bad,
            }
        },
    }
}

/// A repo is clean exactly where nothing has changed, nothing is untracked, and its
/// branch is neither ahead nor behind. Whatever is not so is told with its number,
/// and nothing else is.
pub proof fn status_told(name: Seq<char>, s: RepoStatusView)
    ensures
        ({
            let row = status_row(name, Ok(s));
            let r = remarks(s);
            let n = |k: nat|
                if k > 0 {
                    1int
                } else {
                    0int
                };
            &&& row.name == name
            &&& row.branch == s.branch
            &&& row.tone == Tone::Good <==> s.changed == 0 && s.untracked == 0 && s.ahead == 0
                && s.behind == 0
            &&& row.tone != Tone::Bad
            &&& row.tone == Tone::Good ==> row.status == "clean"@
            &&& row.tone == Tone::Notable ==> row.status == joined(r, ", "@)
            &&& s.changed > 0 ==> r.contains(decimal_of(s.changed) + " changed"@)
            &&& s.untracked > 0 ==> r.contains(decimal_of(s.untracked) + " untracked"@)
            &&& s.ahead > 0 ==> r.contains("ahead "@ + decimal_of(s.ahead))
            &&& s.behind > 0 ==> r.contains("behind "@ + decimal_of(s.behind))
            &&& r.len() == n(s.changed) + n(s.untracked) + n(s.ahead) + n(s.behind)
        }),
{
    let none: Seq<Seq<char>> = Seq::empty();
    let x1 = decimal_of(s.changed) + " changed"@;
    let x2 = decimal_of(s.untracked) + " untracked"@;
    let x3 = "ahead "@ + decimal_of(s.ahead);
    let x4 = "behind "@ + decimal_of(s.behind);
    let a = counted(none, s.changed, x1);
    let b = counted(a, s.untracked, x2);
    let c = counted(b, s.ahead, x3);
    let r = remarks(s);
    if s.changed > 0 {
        assert(r[0] == x1);
    }
    if s.untracked > 0 {
        assert(r[a.len() as int] == x2);
    }
    if s.ahead > 0 {
        assert(r[b.len() as int] == x3);
    }
    if s.behind > 0 {
        assert(r[c.len() as int] == x4);
    }
}

/// A repo whose state cannot be read is told as such, with the reason.
pub proof fn trouble_told(name: Seq<char>, e: ErrorView)
    ensures
        status_row(name, Err(e)).tone == Tone::Bad,
        status_row(name, Err(e)).name == name,
        e.message().is_suffix_of(status_row(name, Err(e)).status),
{
    let s = status_row(name, Err(e)).status;
    let m = e.message();
    assert(m =~= s.subrange(s.len() - m.len(), s.len() as int));
}

} // verus!
