//! Managing bases.
use vstd::prelude::*;

use crate::commands::create::{repo_list, repo_names};
use crate::config::{
    canonicalize_repo_path, Base, BaseView, Config, ConfigView, RepoRef, RepoRefView,
};
use crate::error::{outcome, Error, ErrorView};
use crate::paths::{file_name, file_name_of};
use crate::table::{
    entry, ordered, put, put_entry, put_law, remove_entry, remove_law, without,
};
use crate::text::{joined, own};

verus! {

/// What is found at a path that is to become a repo of a base.
#[derive(Debug)]
pub struct Inspected {
    pub path: String,
    /// The path, where the file system could resolve it.
    pub canonical: Option<String>,
    /// Whether that is a repository.
    pub is_repo: bool,
}

/// What an [`Inspected`] stands for.
pub struct InspectedView {
    pub path: Seq<char>,
    pub canonical: Option<Seq<char>>,
    pub is_repo: bool,
}

impl DeepView for Inspected {
    type V = InspectedView;

    open spec fn deep_view(&self) -> InspectedView {
        InspectedView {
            path: self.path@,
            canonical: self.canonical.deep_view(),
            is_repo: self.is_repo,
        }
    }
}

/// The repo at a path, named after its directory.
pub open spec fn repo_ref_of(p: InspectedView) -> Result<RepoRefView, ErrorView> {
    match p.canonical {
        None => Err(ErrorView::PathNotFound(p.path)),
        Some(c) => if !p.is_repo {
            Err(ErrorView::NotAGitRepo(c))
        } else {
            Ok(
                RepoRefView {
                    name: match file_name_of(c) {
                        Some(n) => n,
                        None => "unknown"@,
                    },
                    path: c,
                    branch_from: None,
                },
            )
        },
    }
}

/// The repo at a path, named after its directory.
pub fn make_repo_ref(p: Inspected) -> (r: Result<RepoRef, Error>)
    ensures
        outcome(r) == repo_ref_of(p.deep_view()),
{
    match canonicalize_repo_path(p.path.as_str(), p.canonical) {
        Err(e) => Err(e),
        Ok(canonical) => if !p.is_repo {
            Err(Error::NotAGitRepo(canonical))
        } else {
            let name = match file_name(canonical.as_str()) {
                Some(n) => n,
                None => own("unknown"),
            };
            Ok(RepoRef { name, path: canonical, branch_from: None })
        },
    }
}

/// The repos at some paths, or what is wrong with the first that is none.
pub open spec fn repo_refs_of(paths: Seq<InspectedView>) -> Result<Seq<RepoRefView>, ErrorView>
    decreases paths.len(),
{
    if paths.len() == 0 {
        Ok(Seq::empty())
    } else {
        match repo_refs_of(paths.drop_last()) {
            Err(e) => Err(e),
            Ok(rs) => match repo_ref_of(paths.last()) {
                Err(e) => Err(e),
                Ok(x) => Ok(rs.push(x)),
            },
        }
    }
}

proof fn lemma_refs_fail(paths: Seq<InspectedView>, k: int)
    requires
        0 <= k <= paths.len(),
        repo_refs_of(paths.take(k)) is Err,
    ensures
        repo_refs_of(paths) == repo_refs_of(paths.take(k)),
    decreases paths.len() - k,
{
    if k < paths.len() {
        assert(paths.take(k + 1).drop_last() =~= paths.take(k));
        lemma_refs_fail(paths, k + 1);
    } else {
        assert(paths.take(k) =~= paths);
    }
}

/// The configuration with a base defined, or what is wrong.
pub open spec fn with_base(
    config: ConfigView,
    name: Seq<char>,
    repos: Result<Seq<RepoRefView>, ErrorView>,
) -> Result<ConfigView, ErrorView> {
    match (entry(config.bases, name), repos) {
        (Some(_), _) => Err(ErrorView::BaseAlreadyExists(name)),
        (None, Err(e)) => Err(e),
        (None, Ok(repos)) => Ok(
            ConfigView {
                bases: put(
                    config.bases,
                    name,
                    BaseView { repos, branch_from: None, copy_files: Seq::empty() },
                ),
                ..config
            },
        ),
    }
}

/// The configuration with another definition of a base, or what is wrong.
pub open spec fn redefined(config: ConfigView, name: Seq<char>, base: BaseView) -> Result<
    ConfigView,
    ErrorView,
> {
    match entry(config.bases, name) {
        None => Err(ErrorView::BaseNotFound(name)),
        Some(_) => Ok(ConfigView { bases: put(config.bases, name, base), ..config }),
    }
}

/// The configuration without a base, or what is wrong.
pub open spec fn without_base(config: ConfigView, name: Seq<char>) -> Result<ConfigView, ErrorView> {
    match entry(config.bases, name) {
        None => Err(ErrorView::BaseNotFound(name)),
        Some(_) => Ok(ConfigView { bases: without(config.bases, name), ..config }),
    }
}

/// Defines a base from the repos at some paths: an error where the name is taken,
/// or else where a path is not that of a repo; nothing is changed then.
pub fn add(config: &mut Config, name: &str, paths: Vec<Inspected>) -> (r: Result<(), Error>)
    requires
        old(config).wf(),
    ensures
        final(config).wf(),
        match with_base(old(config)@, name@, repo_refs_of(paths.deep_view())) {
            Ok(c) => r is Ok && final(config)@ == c,
            Err(e) => r is Err && r->Err_0@ == e && final(config)@ == old(config)@,
        },
{
    if config.base(name).is_some() {
        return Err(Error::BaseAlreadyExists(own(name)));
    }
    let ghost all = paths.deep_view();
    let ghost before = config@;
    let ghost mut k: int = 0;
    let mut rest = paths;
    let mut repos: Vec<RepoRef> = Vec::new();
    assert(repos.deep_view() =~= Seq::<RepoRefView>::empty());
    assert(all.skip(0) =~= all);
    while rest.len() > 0
        invariant
            config@ == before,
            config.wf(),
            before == old(config)@,
            entry(before.bases, name@) is None,
            all == paths.deep_view(),
            0 <= k <= all.len(),
            rest.deep_view() == all.skip(k),
            repo_refs_of(all.take(k)) is Ok,
            repo_refs_of(all.take(k))->Ok_0 == repos.deep_view(),
        decreases rest@.len(),
    {
        let ghost left = rest.deep_view();
        let p = rest.remove(0);
        proof {
            assert(left.len() == all.len() - k);
            assert(left[0] == p.deep_view());
            assert(all.skip(k)[0] == all[k]);
            assert(rest.deep_view() =~= left.skip(1));
            assert(all.skip(k).skip(1) =~= all.skip(k + 1));
            assert(all.take(k + 1).drop_last() =~= all.take(k));
            assert(all.take(k + 1).last() == p.deep_view());
            k = k + 1;
        }
        match make_repo_ref(p) {
            Ok(x) => {
                let ghost g = repos.deep_view();
                let ghost v = x.deep_view();
                repos.push(x);
                assert(repos.deep_view() =~= g.push(v));
            },
            Err(e) => {
                proof {
                    lemma_refs_fail(all, k);
                }
                return Err(e);
            },
        }
    }
    assert(all.take(k) =~= all);
    let base = Base { repos, branch_from: None, copy_files: Vec::new() };
    assert(base.copy_files.deep_view() =~= Seq::<Seq<char>>::empty());
    proof {
        put_law(before.bases, name@, base.deep_view(), name@);
    }
    put_entry(&mut config.bases, own(name), base);
    Ok(())
}

/// Replaces a base that is there.
pub fn update(config: &mut Config, name: &str, base: Base) -> (r: Result<(), Error>)
    requires
        old(config).wf(),
    ensures
        final(config).wf(),
        match redefined(old(config)@, name@, base.deep_view()) {
            Ok(c) => r is Ok && final(config)@ == c,
            Err(e) => r is Err && r->Err_0@ == e && final(config)@ == old(config)@,
        },
{
    if config.base(name).is_none() {
        return Err(Error::BaseNotFound(own(name)));
    }
    proof {
        put_law(config@.bases, name@, base.deep_view(), name@);
    }
    put_entry(&mut config.bases, own(name), base);
    Ok(())
}

/// Removes a base.
pub fn remove(config: &mut Config, name: &str) -> (r: Result<(), Error>)
    requires
        old(config).wf(),
    ensures
        final(config).wf(),
        match without_base(old(config)@, name@) {
            Ok(c) => r is Ok && final(config)@ == c,
            Err(e) => r is Err && r->Err_0@ == e && final(config)@ == old(config)@,
        },
{
    proof {
        if entry(config@.bases, name@) is Some {
            remove_law(config@.bases, name@, entry(config@.bases, name@)->0, name@);
        }
    }
    if remove_entry(&mut config.bases, name) {
        Ok(())
    } else {
        Err(Error::BaseNotFound(own(name)))
    }
}

/// A line of the list of bases.
#[derive(Debug)]
pub struct BaseRow {
    pub name: String,
    pub repos: String,
}

/// What a [`BaseRow`] stands for.
#[verifier::ext_equal]
pub struct BaseRowView {
    pub name: Seq<char>,
    pub repos: Seq<char>,
}

impl DeepView for BaseRow {
    type V = BaseRowView;

    open spec fn deep_view(&self) -> BaseRowView {
        BaseRowView { name: self.name@, repos: self.repos@ }
    }
}

/// The list of bases, in the order of their names.
pub fn list(config: &Config) -> (r: Vec<BaseRow>)
    ensures
        r.deep_view() == config@.bases.map_values(
            |b: (Seq<char>, BaseView)|
                BaseRowView { name: b.0, repos: joined(repo_names(b.1), ", "@) },
        ),
{
    let ghost v = config@.bases;
    let mut rows: Vec<BaseRow> = Vec::new();
    for i in 0..config.bases.len()
        invariant
            v == config@.bases,
            rows@.len() == i,
            forall|j: int|
                0 <= j < i ==> (#[trigger] rows@[j]).deep_view() == (BaseRowView {
                    name: v[j].0,
                    repos: joined(repo_names(v[j].1), ", "@),
                }),
    {
        let repos = repo_list(&config.bases[i].1);
        rows.push(BaseRow { name: config.bases[i].0.clone(), repos });
    }
    assert(rows.deep_view() =~= v.map_values(
        |b: (Seq<char>, BaseView)| BaseRowView { name: b.0, repos: joined(repo_names(b.1), ", "@) },
    ));
    rows
}

/// A base that has been defined is removed again without a trace.
pub proof fn remove_undoes_add(before: ConfigView, name: Seq<char>, base: BaseView)
    requires
        ordered(before.bases),
        entry(before.bases, name) is None,
    ensures
        entry(put(before.bases, name, base), name) == Some(base),
        without(put(before.bases, name, base), name) == before.bases,
{
    put_law(before.bases, name, base, name);
    remove_law(before.bases, name, base, name);
}

/// A base is made of all the paths or of none: where each of them is there and is a
/// repository, there is one repo for each, in order, at the path as it was resolved
/// and under the last name of that; and else the first path that is wrong is told.
pub proof fn repos_of_paths(paths: Seq<InspectedView>, i: int)
    requires
        0 <= i < paths.len(),
    ensures
        repo_refs_of(paths) is Ok <==> forall|k: int|
            0 <= k < paths.len() ==> (#[trigger] paths[k]).canonical is Some && paths[k].is_repo,
        repo_refs_of(paths) is Ok ==> ({
            let repos = repo_refs_of(paths)->Ok_0;
            &&& repos.len() == paths.len()
            &&& repos[i].path == paths[i].canonical->0
            &&& file_name_of(repos[i].path) is Some ==> file_name_of(repos[i].path) == Some(
                repos[i].name,
            )
            &&& repos[i].branch_from is None
        }),
        (paths[i].canonical is None || !paths[i].is_repo) && (forall|k: int|
            0 <= k < i ==> (#[trigger] paths[k]).canonical is Some && paths[k].is_repo)
            ==> repo_refs_of(paths) == Err::<Seq<RepoRefView>, ErrorView>(
            if paths[i].canonical is None {
                ErrorView::PathNotFound(paths[i].path)
            } else {
                ErrorView::NotAGitRepo(paths[i].canonical->0)
            },
        ),
    decreases paths.len(),
{
    let t = paths.drop_last();
    let n = paths.len() - 1;
    assert forall|k: int| 0 <= k < n implies t[k] == #[trigger] paths[k] by {}
    assert(paths[n] == paths.last());
    if t.len() > 0 {
        repos_of_paths(t, if i < n { i } else { 0 });
        if repo_refs_of(t) is Ok {
            assert forall|k: int| 0 <= k < n implies (#[trigger] paths[k]).canonical is Some
                && paths[k].is_repo by {
                assert(t[k].canonical is Some && t[k].is_repo);
            }
        } else {
            let k = choose|k: int|
                0 <= k < t.len() && !((#[trigger] t[k]).canonical is Some && t[k].is_repo);
            assert(paths[k] == t[k]);
        }
        if i < n {
            assert(t[i] == paths[i]);
            if forall|k: int|
                0 <= k < i ==> (#[trigger] paths[k]).canonical is Some && paths[k].is_repo {
                assert forall|k: int| 0 <= k < i implies (#[trigger] t[k]).canonical is Some
                    && t[k].is_repo by {
                    assert(paths[k].canonical is Some);
                }
            }
        }
    }
}

/// A base is defined with the repos that it was given, under a name that was free;
/// redefining one gives it the definition that it was given, and removing one leaves
/// none of its name. Every other base stays as it is, and so do the settings.
pub proof fn bases_change(
    config: ConfigView,
    name: Seq<char>,
    repos: Seq<RepoRefView>,
    base: BaseView,
    other: Seq<char>,
)
    requires
        ordered(config.bases),
    ensures
        with_base(config, name, Ok(repos)) is Ok <==> entry(config.bases, name) is None,
        redefined(config, name, base) is Ok <==> entry(config.bases, name) is Some,
        without_base(config, name) is Ok <==> entry(config.bases, name) is Some,
        with_base(config, name, Ok(repos)) is Ok ==> ({
            let c = with_base(config, name, Ok(repos))->Ok_0;
            &&& c.settings == config.settings
            &&& entry(c.bases, name) is Some
            &&& entry(c.bases, name)->0.repos == repos
            &&& entry(c.bases, name)->0.branch_from is None
            &&& entry(c.bases, name)->0.copy_files.len() == 0
            &&& other != name ==> entry(c.bases, other) == entry(config.bases, other)
            &&& without_base(c, name) == Ok::<ConfigView, ErrorView>(config)
        }),
        redefined(config, name, base) is Ok ==> ({
            let c = redefined(config, name, base)->Ok_0;
            &&& c.settings == config.settings
            &&& entry(c.bases, name) == Some(base)
            &&& other != name ==> entry(c.bases, other) == entry(config.bases, other)
        }),
        without_base(config, name) is Ok ==> ({
            let c = without_base(config, name)->Ok_0;
            &&& c.settings == config.settings
            &&& entry(c.bases, name) is None
            &&& other != name ==> entry(c.bases, other) == entry(config.bases, other)
        }),
{
    let b = BaseView { repos, branch_from: None, copy_files: Seq::empty() };
    put_law(config.bases, name, b, other);
    put_law(config.bases, name, base, other);
    remove_law(config.bases, name, b, other);
    if entry(config.bases, name) is None {
        remove_undoes_add(config, name, b);
        let c = with_base(config, name, Ok(repos))->Ok_0;
        assert(without_base(c, name)->Ok_0 =~= config);
    }
}

} // verus!
