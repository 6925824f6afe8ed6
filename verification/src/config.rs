//! The configuration: settings, bases, and where files live.
use vstd::prelude::*;

use crate::error::{outcome, Error, ErrorView};
use crate::paths::{
    components_of, is_absolute, is_within, join_path, joined_lies_below, joined_path,
};
use crate::table::{entry, find_entry, ordered};
use crate::text::{copy_strings, own, strip_prefix};

verus! {

/// What the process finds in its environment.
pub struct Environment {
    /// `CUTTER_CONFIG_DIR`.
    pub config_dir: Option<String>,
    /// `CUTTER_WORKSPACE_ROOT`.
    pub workspace_root: Option<String>,
    /// The user's home directory.
    pub home: Option<String>,
}

#[derive(Debug)]
pub struct Config {
    pub settings: Settings,
    /// The bases by name, in ascending order.
    pub bases: Vec<(String, Base)>,
}

#[derive(Debug)]
pub struct Settings {
    pub workspace_root: String,
    /// The ref that new branches start from, unless a base or a repo says otherwise.
    pub default_branch_from: String,
}

/// A named template: the repositories that belong together.
#[derive(Debug)]
pub struct Base {
    pub repos: Vec<RepoRef>,
    /// Overrides the default start of branches for every repo of this base.
    pub branch_from: Option<String>,
    /// Files copied from each source repo into its worktree.
    pub copy_files: Vec<String>,
}

#[derive(Debug)]
pub struct RepoRef {
    pub name: String,
    pub path: String,
    /// Overrides the start of the branch for this repo.
    pub branch_from: Option<String>,
}

pub struct EnvironmentView {
    pub config_dir: Option<Seq<char>>,
    pub workspace_root: Option<Seq<char>>,
    pub home: Option<Seq<char>>,
}

#[verifier::ext_equal]
pub struct ConfigView {
    pub settings: SettingsView,
    pub bases: Seq<(Seq<char>, BaseView)>,
}

#[verifier::ext_equal]
pub struct SettingsView {
    pub workspace_root: Seq<char>,
    pub default_branch_from: Seq<char>,
}

#[verifier::ext_equal]
pub struct BaseView {
    pub repos: Seq<RepoRefView>,
    pub branch_from: Option<Seq<char>>,
    pub copy_files: Seq<Seq<char>>,
}

#[verifier::ext_equal]
pub struct RepoRefView {
    pub name: Seq<char>,
    pub path: Seq<char>,
    pub branch_from: Option<Seq<char>>,
}

impl View for Environment {
    type V = EnvironmentView;

    open spec fn view(&self) -> EnvironmentView {
        EnvironmentView {
            config_dir: self.config_dir.deep_view(),
            workspace_root: self.workspace_root.deep_view(),
            home: self.home.deep_view(),
        }
    }
}

impl DeepView for RepoRef {
    type V = RepoRefView;

    open spec fn deep_view(&self) -> RepoRefView {
        RepoRefView {
            name: self.name@,
            path: self.path@,
            branch_from: self.branch_from.deep_view(),
        }
    }
}

impl DeepView for Base {
    type V = BaseView;

    open spec fn deep_view(&self) -> BaseView {
        BaseView {
            repos: self.repos.deep_view(),
            branch_from: self.branch_from.deep_view(),
            copy_files: self.copy_files.deep_view(),
        }
    }
}

impl DeepView for Settings {
    type V = SettingsView;

    open spec fn deep_view(&self) -> SettingsView {
        SettingsView {
            workspace_root: self.workspace_root@,
            default_branch_from: self.default_branch_from@,
        }
    }
}

impl View for Config {
    type V = ConfigView;

    open spec fn view(&self) -> ConfigView {
        ConfigView { settings: self.settings.deep_view(), bases: self.bases.deep_view() }
    }
}

impl Clone for RepoRef {
    fn clone(&self) -> (r: Self)
        ensures
            r.deep_view() == self.deep_view(),
    {
        RepoRef {
            name: self.name.clone(),
            path: self.path.clone(),
            branch_from: self.branch_from.clone(),
        }
    }
}

/// A copy of a list of repos.
pub fn copy_repos(list: &Vec<RepoRef>) -> (r: Vec<RepoRef>)
    ensures
        r.deep_view() == list.deep_view(),
{
    let mut out: Vec<RepoRef> = Vec::new();
    for i in 0..list.len()
        invariant
            out@.len() == i,
            forall|j: int| 0 <= j < i ==> (#[trigger] out@[j]).deep_view() == list@[j].deep_view(),
    {
        out.push(list[i].clone());
    }
    assert(out.deep_view() =~= list.deep_view());
    out
}

impl Clone for Base {
    fn clone(&self) -> (r: Self)
        ensures
            r.deep_view() == self.deep_view(),
    {
        Base {
            repos: copy_repos(&self.repos),
            branch_from: self.branch_from.clone(),
            copy_files: copy_strings(&self.copy_files),
        }
    }
}

impl EnvironmentView {
    /// Where the configuration lives.
    pub open spec fn config_dir(self) -> Result<Seq<char>, ErrorView> {
        match (self.config_dir, self.home) {
            (Some(d), _) => Ok(d),
            (None, Some(h)) => Ok(joined_path(joined_path(h, ".config"@), "cutter"@)),
            (None, None) => Err(ErrorView::Config("Could not determine config directory"@)),
        }
    }

    /// A file or directory of the configuration.
    pub open spec fn config_path(self, name: Seq<char>) -> Result<Seq<char>, ErrorView> {
        match self.config_dir() {
            Ok(d) => Ok(joined_path(d, name)),
            Err(e) => Err(e),
        }
    }

    /// `path` with a leading `~/` replaced by the home directory, if there is one.
    pub open spec fn expand(self, path: Seq<char>) -> Seq<char> {
        if "~/"@.is_prefix_of(path) && self.home is Some {
            joined_path(self.home->0, path.skip("~/"@.len() as int))
        } else {
            path
        }
    }
}

impl Default for Settings {
    fn default() -> (r: Self)
        ensures
            r.workspace_root@ == "~/cutter"@,
            r.default_branch_from@ == "origin/main"@,
    {
        Settings { workspace_root: own("~/cutter"), default_branch_from: own("origin/main") }
    }
}

impl Default for Config {
    /// The configuration where there is no file.
    fn default() -> (r: Self)
        ensures
            r@.settings.workspace_root == "~/cutter"@,
            r@.settings.default_branch_from == "origin/main"@,
            r@.bases == Seq::<(Seq<char>, BaseView)>::empty(),
            r.wf(),
    {
        let c = Config { settings: Settings::default(), bases: Vec::new() };
        assert(c@.bases =~= Seq::<(Seq<char>, BaseView)>::empty());
        c
    }
}

/// Where the configuration lives.
pub fn config_dir(env: &Environment) -> (r: Result<String, Error>)
    ensures
        outcome(r) == env@.config_dir(),
{
    match (&env.config_dir, &env.home) {
        (Some(d), _) => Ok(d.clone()),
        (None, Some(h)) => {
            let c = join_path(h.as_str(), ".config");
            Ok(join_path(c.as_str(), "cutter"))
        },
        (None, None) => Err(Error::Config(own("Could not determine config directory"))),
    }
}

/// A file or directory of the configuration.
pub fn config_path(env: &Environment, name: &str) -> (r: Result<String, Error>)
    ensures
        outcome(r) == env@.config_path(name@),
{
    match config_dir(env) {
        Ok(d) => Ok(join_path(d.as_str(), name)),
        Err(e) => Err(e),
    }
}

/// The file that holds the configuration.
pub fn config_file_path(env: &Environment) -> (r: Result<String, Error>)
    ensures
        outcome(r) == env@.config_path("config.toml"@),
{
    config_path(env, "config.toml")
}

/// The directory with one file per workspace.
pub fn workspaces_dir(env: &Environment) -> (r: Result<String, Error>)
    ensures
        outcome(r) == env@.config_path("workspaces"@),
{
    config_path(env, "workspaces")
}

/// The directory under which workspaces are created.
pub fn workspace_root_dir(config: &Config, env: &Environment) -> (r: String)
    ensures
        r@ == (match env@.workspace_root {
            Some(root) => root,
            None => env@.expand(config@.settings.workspace_root),
        }),
{
    match &env.workspace_root {
        Some(root) => root.clone(),
        None => config.workspace_root(env),
    }
}

/// `path` with a leading `~/` replaced by the home directory, if there is one.
pub fn expand_tilde(path: &str, env: &Environment) -> (r: String)
    ensures
        r@ == env@.expand(path@),
{
    if let Some(rest) = strip_prefix(path, "~/") {
        if let Some(home) = &env.home {
            return join_path(home.as_str(), rest.as_str());
        }
    }
    own(path)
}

/// The path of a repo, where the file system could resolve it.
pub fn canonicalize_repo_path(path: &str, canonical: Option<String>) -> (r: Result<String, Error>)
    ensures
        outcome(r) == (match canonical.deep_view() {
            Some(c) => Ok(c),
            None => Err(ErrorView::PathNotFound(path@)),
        }),
{
    match canonical {
        Some(c) => Ok(c),
        None => Err(Error::PathNotFound(own(path))),
    }
}

/// The ref that a repo's branch starts from: what the repo says, else what its
/// base says, else the default.
pub open spec fn start_point_of(
    repo: RepoRefView,
    base: BaseView,
    settings: SettingsView,
) -> Seq<char> {
    match (repo.branch_from, base.branch_from) {
        (Some(b), _) => b,
        (None, Some(b)) => b,
        (None, None) => settings.default_branch_from,
    }
}

/// The ref that the branch of `repo` starts from.
pub fn start_point(repo: &RepoRef, base: &Base, settings: &Settings) -> (r: String)
    ensures
        r@ == start_point_of(repo.deep_view(), base.deep_view(), settings.deep_view()),
{
    match (&repo.branch_from, &base.branch_from) {
        (Some(b), _) => b.clone(),
        (None, Some(b)) => b.clone(),
        (None, None) => settings.default_branch_from.clone(),
    }
}

impl Config {
    /// The bases stand in ascending order, each name once.
    pub open spec fn wf(&self) -> bool {
        ordered(self.bases.deep_view())
    }

    /// The configuration: what the file says, where there is one, else the
    /// default.
    pub fn load(found: Option<Config>) -> (r: Config)
        ensures
            match found {
                Some(c) => r == c,
                None => r.wf() && r@.settings.workspace_root == "~/cutter"@
                    && r@.settings.default_branch_from == "origin/main"@ && r@.bases.len() == 0,
            },
    {
        match found {
            Some(c) => c,
            None => Config::default(),
        }
    }

    /// The configured directory for workspaces.
    pub fn workspace_root(&self, env: &Environment) -> (r: String)
        ensures
            r@ == env@.expand(self@.settings.workspace_root),
    {
        expand_tilde(self.settings.workspace_root.as_str(), env)
    }

    /// The base `name`.
    pub fn base(&self, name: &str) -> (r: Option<&Base>)
        ensures
            match r {
                Some(b) => entry(self@.bases, name@) == Some(b.deep_view()),
                None => entry(self@.bases, name@) is None,
            },
    {
        match find_entry(&self.bases, name) {
            Some(i) => Some(&self.bases[i].1),
            None => None,
        }
    }
}

/// The precedence of start points: the repo's own, else its base's, else the default.
pub proof fn start_point_precedence(repo: RepoRefView, base: BaseView, settings: SettingsView)
    ensures
        repo.branch_from is Some ==> start_point_of(repo, base, settings) == repo.branch_from->0,
        repo.branch_from is None && base.branch_from is Some ==> start_point_of(
            repo,
            base,
            settings,
        ) == base.branch_from->0,
        repo.branch_from is None && base.branch_from is None ==> start_point_of(
            repo,
            base,
            settings,
        ) == settings.default_branch_from,
{
}

/// A leading tilde stands for the home directory, where that is known, and nothing
/// else in a path is replaced.
pub proof fn tilde_is_home(env: EnvironmentView, home: Seq<char>, rest: Seq<char>, path: Seq<char>)
    requires
        env.home == Some(home),
        home.len() > 0,
    ensures
        !is_absolute(rest) ==> is_within(env.expand("~/"@ + rest), home),
        env.expand("~/"@ + rest) == joined_path(home, rest),
        !"~/"@.is_prefix_of(path) ==> env.expand(path) == path,
        (EnvironmentView { home: None, ..env }).expand(path) == path,
{
    let p = "~/"@;
    assert(p =~= (p + rest).take(p.len() as int));
    assert((p + rest).skip(p.len() as int) =~= rest);
    if !is_absolute(rest) {
        joined_lies_below(home, rest);
    }
}

/// The configuration lives where the environment says, and else below the home
/// directory; it cannot be found only where neither is known.
pub proof fn config_found(env: EnvironmentView, name: Seq<char>)
    ensures
        env.config_dir is Some ==> env.config_dir() == Ok::<Seq<char>, ErrorView>(env.config_dir->0),
        env.config_dir is None && env.home is Some && env.home->0.len() > 0 ==> env.config_dir() is Ok
            && is_within(env.config_dir()->Ok_0, env.home->0),
        env.config_dir() is Err <==> env.config_dir is None && env.home is None,
        env.config_path(name) is Ok <==> env.config_dir() is Ok,
        env.config_path(name) is Ok ==> env.config_path(name)->Ok_0 == joined_path(
            env.config_dir()->Ok_0,
            name,
        ),
{
    reveal_strlit(".config");
    reveal_strlit("cutter");
    if env.config_dir is None && env.home is Some && env.home->0.len() > 0 {
        let h = env.home->0;
        let c = joined_path(h, ".config"@);
        joined_lies_below(h, ".config"@);
        joined_lies_below(c, "cutter"@);
        let x = components_of(h);
        let y = components_of(joined_path(c, "cutter"@));
        assert(x =~= y.take(x.len() as int));
    }
}

} // verus!
