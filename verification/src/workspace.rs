//! Workspaces as they are remembered.
use vstd::prelude::*;

use crate::config::{workspaces_dir, Environment};
use crate::error::{outcome, Error, ErrorView};
use crate::order::{keeps_order, lemma_insertion};
use crate::paths::{
    extension, extension_of, extension_of_file, is_within, join_path, joined_lies_below, joined_path,
};
use crate::text::{cat, less, less_total, less_transitive, own, precedes, same};
use crate::time::Timestamp;

verus! {

#[derive(Debug)]
pub struct WorkspaceConfig {
    pub workspace: WorkspaceInfo,
    pub repos: Vec<WorkspaceRepo>,
    /// The windows that the user has tied to this workspace, by what tells them
    /// apart: ids of live windows do not last.
    pub linked_windows: Vec<LinkedWindow>,
}

/// A window linked to a workspace, by the attributes by which it is found again.
#[derive(Debug)]
pub struct LinkedWindow {
    /// The name of the application that owns it.
    pub app_name: String,
    /// Its title when it was linked.
    pub title: String,
    /// The document that it has open, where the application says so.
    pub document_path: Option<String>,
    /// Its id, decisive while the window lives.
    pub window_id: Option<u32>,
}

#[derive(Debug)]
pub struct WorkspaceInfo {
    pub name: String,
    pub base: String,
    pub branch: String,
    pub path: String,
    pub created_at: Timestamp,
}

#[derive(Debug)]
pub struct WorkspaceRepo {
    pub name: String,
    pub source: String,
    pub branch: String,
    pub worktree_path: String,
}

#[verifier::ext_equal]
pub struct WorkspaceConfigView {
    pub workspace: WorkspaceInfoView,
    pub repos: Seq<WorkspaceRepoView>,
    pub linked_windows: Seq<LinkedWindowView>,
}

#[verifier::ext_equal]
pub struct LinkedWindowView {
    pub app_name: Seq<char>,
    pub title: Seq<char>,
    pub document_path: Option<Seq<char>>,
    pub window_id: Option<u32>,
}

#[verifier::ext_equal]
pub struct WorkspaceInfoView {
    pub name: Seq<char>,
    pub base: Seq<char>,
    pub branch: Seq<char>,
    pub path: Seq<char>,
    pub created_at: Timestamp,
}

#[verifier::ext_equal]
pub struct WorkspaceRepoView {
    pub name: Seq<char>,
    pub source: Seq<char>,
    pub branch: Seq<char>,
    pub worktree_path: Seq<char>,
}

impl DeepView for LinkedWindow {
    type V = LinkedWindowView;

    open spec fn deep_view(&self) -> LinkedWindowView {
        LinkedWindowView {
            app_name: self.app_name@,
            title: self.title@,
            document_path: self.document_path.deep_view(),
            window_id: self.window_id,
        }
    }
}

impl DeepView for WorkspaceRepo {
    type V = WorkspaceRepoView;

    open spec fn deep_view(&self) -> WorkspaceRepoView {
        WorkspaceRepoView {
            name: self.name@,
            source: self.source@,
            branch: self.branch@,
            worktree_path: self.worktree_path@,
        }
    }
}

impl DeepView for WorkspaceInfo {
    type V = WorkspaceInfoView;

    open spec fn deep_view(&self) -> WorkspaceInfoView {
        WorkspaceInfoView {
            name: self.name@,
            base: self.base@,
            branch: self.branch@,
            path: self.path@,
            created_at: self.created_at,
        }
    }
}

impl DeepView for WorkspaceConfig {
    type V = WorkspaceConfigView;

    open spec fn deep_view(&self) -> WorkspaceConfigView {
        WorkspaceConfigView {
            workspace: self.workspace.deep_view(),
            repos: self.repos.deep_view(),
            linked_windows: self.linked_windows.deep_view(),
        }
    }
}

impl Clone for LinkedWindow {
    fn clone(&self) -> (r: Self)
        ensures
            r.deep_view() == self.deep_view(),
    {
        LinkedWindow {
            app_name: self.app_name.clone(),
            title: self.title.clone(),
            document_path: self.document_path.clone(),
            window_id: self.window_id,
        }
    }
}

/// The file that remembers the workspace `name`.
pub open spec fn workspace_file(dir: Seq<char>, name: Seq<char>) -> Seq<char> {
    joined_path(dir, name + ".toml"@)
}

/// The file that remembers the workspace `name`.
pub fn workspace_config_path(env: &Environment, name: &str) -> (r: Result<String, Error>)
    ensures
        outcome(r) == (match env@.config_path("workspaces"@) {
            Ok(dir) => Ok(workspace_file(dir, name@)),
            Err(e) => Err(e),
        }),
{
    match workspaces_dir(env) {
        Ok(dir) => {
            let file = cat(name, ".toml");
            Ok(join_path(dir.as_str(), file.as_str()))
        },
        Err(e) => Err(e),
    }
}

/// Whether a file of the directory of workspaces remembers one.
pub fn is_workspace_file(path: &str) -> (r: bool)
    ensures
        r == (extension_of(path@) == Some("toml"@)),
{
    match extension(path) {
        Some(e) => same(e.as_str(), "toml"),
        None => false,
    }
}

/// The names do not descend.
pub open spec fn by_name(list: Seq<WorkspaceConfigView>) -> bool {
    forall|i: int, j: int|
        0 <= i < j < list.len() ==> !less(
            (#[trigger] list[j]).workspace.name,
            (#[trigger] list[i]).workspace.name,
        )
}

/// What a workspace is sorted by.
pub open spec fn name_key() -> spec_fn(WorkspaceConfigView) -> Seq<char> {
    |w: WorkspaceConfigView| w.workspace.name
}

impl WorkspaceConfig {
    /// What is read for the workspace `name`: an error where its file is missing.
    pub fn load(name: &str, found: Option<WorkspaceConfig>) -> (r: Result<WorkspaceConfig, Error>)
        ensures
            outcome(r) == (match found.deep_view() {
                Some(w) => Ok(w),
                None => Err(ErrorView::WorkspaceNotFound(name@)),
            }),
            found is Some ==> r->Ok_0 == found->0,
    {
        match found {
            Some(w) => Ok(w),
            None => Err(Error::WorkspaceNotFound(own(name))),
        }
    }

    /// The workspaces in the order of their names. Those of one name stay in the
    /// order in which they were found.
    pub fn list_all(found: Vec<WorkspaceConfig>) -> (r: Vec<WorkspaceConfig>)
        ensures
            by_name(r.deep_view()),
            keeps_order(r.deep_view(), found.deep_view(), name_key()),
    {
        let ghost all = found.deep_view();
        let ghost mut taken: Seq<WorkspaceConfigView> = Seq::empty();
        let mut rest = found;
        let mut done: Vec<WorkspaceConfig> = Vec::new();
        assert(done.deep_view() =~= taken);
        assert(taken + rest.deep_view() =~= all);
        while rest.len() > 0
            invariant
                by_name(done.deep_view()),
                keeps_order(done.deep_view(), taken, name_key()),
                taken + rest.deep_view() == all,
            decreases rest@.len(),
        {
            let ghost before = rest.deep_view();
            let ws = rest.remove(0);
            let ghost x = ws.deep_view();
            assert(before =~= seq![x] + rest.deep_view());
            let ghost d = done.deep_view();
            let n = done.len();
            let mut i: usize = n;
            while i > 0 && precedes(
                ws.workspace.name.as_str(),
                done[i - 1].workspace.name.as_str(),
            )
                invariant
                    i <= n,
                    n == done@.len(),
                    d == done.deep_view(),
                    x == ws.deep_view(),
                    forall|j: int|
                        i <= j < n ==> less(x.workspace.name, (#[trigger] d[j]).workspace.name),
                decreases i,
            {
                i = i - 1;
            }
            proof {
                assert forall|j: int| i <= j < d.len() implies name_key()(#[trigger] d[j])
                    != name_key()(x) by {
                    crate::text::less_irreflexive(x.workspace.name);
                }
                lemma_insertion(d, taken, x, i as int, name_key());
                let s = d.insert(i as int, x);
                assert forall|a: int, b: int| 0 <= a < b < s.len() implies !less(
                    (#[trigger] s[b]).workspace.name,
                    (#[trigger] s[a]).workspace.name,
                ) by {
                    lemma_name_insert(d, x, i as int, a, b);
                }
            }
            done.insert(i, ws);
            assert(done.deep_view() =~= d.insert(i as int, x));
            proof {
                assert(taken.push(x) + rest.deep_view() =~= taken + (seq![x] + rest.deep_view()));
                taken = taken.push(x);
            }
        }
        assert(taken =~= all);
        done
    }
}

proof fn lemma_name_insert(
    d: Seq<WorkspaceConfigView>,
    x: WorkspaceConfigView,
    i: int,
    a: int,
    b: int,
)
    requires
        by_name(d),
        0 <= i <= d.len(),
        forall|j: int| i <= j < d.len() ==> less(x.workspace.name, (#[trigger] d[j]).workspace.name),
        i > 0 ==> !less(x.workspace.name, d[i - 1].workspace.name),
        0 <= a < b <= d.len(),
    ensures
        !less(d.insert(i, x)[b].workspace.name, d.insert(i, x)[a].workspace.name),
{
    let s = d.insert(i, x);
    if b == i {
        // `x` stands behind its predecessor, and so behind everything before that.
        assert(s[b] == x && s[a] == d[a]);
        if less(x.workspace.name, d[a].workspace.name) && a < i - 1 {
            assert(!less(d[i - 1].workspace.name, d[a].workspace.name));
            less_total(d[i - 1].workspace.name, d[a].workspace.name);
            if less(d[a].workspace.name, d[i - 1].workspace.name) {
                less_transitive(x.workspace.name, d[a].workspace.name, d[i - 1].workspace.name);
            }
        }
    } else if a == i {
        assert(s[a] == x && s[b] == d[b - 1]);
        assert(less(x.workspace.name, d[b - 1].workspace.name));
        if less(d[b - 1].workspace.name, x.workspace.name) {
            less_transitive(x.workspace.name, d[b - 1].workspace.name, x.workspace.name);
            crate::text::less_irreflexive(x.workspace.name);
        }
    } else {
        let p = if a < i {
            a
        } else {
            a - 1
        };
        let q = if b < i {
            b
        } else {
            b - 1
        };
        assert(s[a] == d[p] && s[b] == d[q]);
    }
}

/// What is remembered of a workspace is found again where workspaces are looked for,
/// and two workspaces are never remembered in the same file.
pub proof fn workspace_files_found(dir: Seq<char>, name: Seq<char>, other: Seq<char>)
    requires
        dir.len() > 0,
        name.len() > 0,
        !name.contains('/'),
        other.len() > 0,
        !other.contains('/'),
    ensures
        extension_of(workspace_file(dir, name)) == Some("toml"@),
        is_within(workspace_file(dir, name), dir),
        workspace_file(dir, name) == workspace_file(dir, other) ==> name == other,
{
    reveal_strlit(".toml");
    reveal_strlit("toml");
    reveal_strlit(".");
    let f = name + ".toml"@;
    let g = other + ".toml"@;
    assert(f =~= name + "."@ + "toml"@);
    extension_of_file(dir, name, "toml"@);
    assert(name[0] != '/') by {
        if name[0] == '/' {
            assert(name.contains('/'));
        }
    }
    assert(other[0] != '/') by {
        if other[0] == '/' {
            assert(other.contains('/'));
        }
    }
    assert(f[0] == name[0] && g[0] == other[0]);
    joined_lies_below(dir, f);
    if workspace_file(dir, name) == workspace_file(dir, other) {
        let head = if dir.last() == '/' {
            dir
        } else {
            dir.push('/')
        };
        let n = head.len() as int;
        assert((head + f).skip(n) =~= f);
        assert((head + g).skip(n) =~= g);
        assert(f == g);
        assert(name =~= f.take(f.len() - 5));
        assert(other =~= g.take(g.len() - 5));
    }
}

} // verus!
