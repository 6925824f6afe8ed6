//! The forms of the window: what they hold, when they can be submitted, and what
//! that asks for.
use vstd::prelude::*;

use crate::config::{copy_repos, expand_tilde, Base, BaseView, Environment, RepoRef, RepoRefView};
use crate::error::{Error, ErrorView};
use crate::text::{
    among, cat, cat3, chars_of, copy_strings, decimal, decimal_of, is_space, is_whitespace, occurs,
    occurs_at, own, same, trim, trimmed, trimmed_law,
};
use crate::window_manager::{same_target, WindowInfo, WindowInfoView};
use crate::workspace::{LinkedWindow, LinkedWindowView};

verus! {

// ---------------------------------------------------------------------------
// What is asked for
// ---------------------------------------------------------------------------

/// What the user asked for.
#[allow(inconsistent_fields)]
#[derive(Debug)]
pub enum PendingAction {
    CreateBase { name: String, paths: Vec<String> },
    RemoveBase(String),
    CreateWorkspace { name: String, base: String },
    CreateWorkspaceAi { prompt: String, base: Option<String> },
    RemoveWorkspace(String),
}

/// What a [`PendingAction`] stands for.
#[allow(inconsistent_fields)]
pub enum PendingActionView {
    CreateBase { name: Seq<char>, paths: Seq<Seq<char>> },
    RemoveBase(Seq<char>),
    CreateWorkspace { name: Seq<char>, base: Seq<char> },
    CreateWorkspaceAi { prompt: Seq<char>, base: Option<Seq<char>> },
    RemoveWorkspace(Seq<char>),
}

impl DeepView for PendingAction {
    type V = PendingActionView;

    open spec fn deep_view(&self) -> PendingActionView {
        match self {
            PendingAction::CreateBase { name, paths } => PendingActionView::CreateBase {
                name: name@,
                paths: paths.deep_view(),
            },
            PendingAction::RemoveBase(n) => PendingActionView::RemoveBase(n@),
            PendingAction::CreateWorkspace { name, base } => PendingActionView::CreateWorkspace {
                name: name@,
                base: base@,
            },
            PendingAction::CreateWorkspaceAi { prompt, base } => {
                PendingActionView::CreateWorkspaceAi { prompt: prompt@, base: base.deep_view() }
            },
            PendingAction::RemoveWorkspace(n) => PendingActionView::RemoveWorkspace(n@),
        }
    }
}

impl PendingActionView {
    /// What is said while it is done.
    pub open spec fn label(self) -> Seq<char> {
        match self {
            PendingActionView::CreateBase { name, paths } => "Creating base '"@ + name + "'…"@,
            PendingActionView::RemoveBase(n) => "Removing base '"@ + n + "'…"@,
            PendingActionView::CreateWorkspace { name, base } => "Creating workspace '"@ + name
                + "'…"@,
            PendingActionView::CreateWorkspaceAi { prompt, base } => "Creating workspace with AI…"@,
            PendingActionView::RemoveWorkspace(n) => "Removing workspace '"@ + n + "'…"@,
        }
    }

    /// What is said when it is done. `named` is what the assistant named the workspace.
    pub open spec fn done(self, named: Seq<char>) -> Seq<char> {
        match self {
            PendingActionView::CreateBase { name, paths } => "Base '"@ + name + "' created"@,
            PendingActionView::RemoveBase(n) => "Base '"@ + n + "' removed"@,
            PendingActionView::CreateWorkspace { name, base } => "Workspace '"@ + name
                + "' created"@,
            PendingActionView::CreateWorkspaceAi { prompt, base } => "Workspace '"@ + named
                + "' created"@,
            PendingActionView::RemoveWorkspace(n) => "Workspace '"@ + n + "' removed"@,
        }
    }
}

impl PendingAction {
    /// What is said while it is done.
    pub fn label(&self) -> (r: String)
        ensures
            r@ == self.deep_view().label(),
    {
        match self {
            PendingAction::CreateBase { name, paths: _ } => cat3(
                "Creating base '",
                name.as_str(),
                "'…",
            ),
            PendingAction::RemoveBase(n) => cat3("Removing base '", n.as_str(), "'…"),
            PendingAction::CreateWorkspace { name, base: _ } => cat3(
                "Creating workspace '",
                name.as_str(),
                "'…",
            ),
            PendingAction::CreateWorkspaceAi { prompt: _, base: _ } => own(
                "Creating workspace with AI…",
            ),
            PendingAction::RemoveWorkspace(n) => cat3("Removing workspace '", n.as_str(), "'…"),
        }
    }

    /// What is said when it is done. `named` is what the assistant named the workspace,
    /// where it did.
    pub fn done(&self, named: &str) -> (r: String)
        ensures
            r@ == self.deep_view().done(named@),
    {
        match self {
            PendingAction::CreateBase { name, paths: _ } => cat3("Base '", name.as_str(), "' created"),
            PendingAction::RemoveBase(n) => cat3("Base '", n.as_str(), "' removed"),
            PendingAction::CreateWorkspace { name, base: _ } => cat3(
                "Workspace '",
                name.as_str(),
                "' created",
            ),
            PendingAction::CreateWorkspaceAi { prompt: _, base: _ } => cat3(
                "Workspace '",
                named,
                "' created",
            ),
            PendingAction::RemoveWorkspace(n) => cat3("Workspace '", n.as_str(), "' removed"),
        }
    }
}

// ---------------------------------------------------------------------------
// Work in the background
// ---------------------------------------------------------------------------

/// What the last piece of work came to.
#[derive(Debug)]
pub struct StatusMsg {
    pub ok: bool,
    pub text: String,
}

/// What a [`StatusMsg`] stands for.
#[verifier::ext_equal]
pub struct StatusMsgView {
    pub ok: bool,
    pub text: Seq<char>,
}

impl DeepView for StatusMsg {
    type V = StatusMsgView;

    open spec fn deep_view(&self) -> StatusMsgView {
        StatusMsgView { ok: self.ok, text: self.text@ }
    }
}

/// The work that goes on, one piece at a time, and what the last one came to.
#[derive(Debug)]
pub struct Jobs {
    pub running: Option<String>,
    pub status: Option<StatusMsg>,
}

/// What [`Jobs`] stand for.
#[verifier::ext_equal]
pub struct JobsView {
    pub running: Option<Seq<char>>,
    pub status: Option<StatusMsgView>,
}

impl View for Jobs {
    type V = JobsView;

    open spec fn view(&self) -> JobsView {
        JobsView { running: self.running.deep_view(), status: self.status.deep_view() }
    }
}

impl JobsView {
    /// After a piece of work was to begin: nothing changes where one goes on.
    pub open spec fn started(self, label: Seq<char>) -> JobsView {
        if self.running is None {
            JobsView { running: Some(label), status: None }
        } else {
            self
        }
    }

    /// After a piece of work has come to something.
    pub open spec fn finished(self, ok: bool, text: Seq<char>) -> JobsView {
        JobsView { running: None, status: Some(StatusMsgView { ok, text }) }
    }
}

impl Jobs {
    /// Begins a piece of work, unless one goes on. Says whether it did.
    pub fn start(&mut self, label: String) -> (r: bool)
        ensures
            r == (old(self)@.running is None),
            final(self)@ == old(self)@.started(label@),
    {
        if self.running.is_some() {
            return false;
        }
        self.running = Some(label);
        self.status = None;
        true
    }

    /// Takes in what a piece of work came to.
    pub fn finish(&mut self, result: Result<String, String>)
        ensures
            final(self)@ == old(self)@.finished(
                result is Ok,
                match result {
                    Ok(m) => m@,
                    Err(m) => m@,
                },
            ),
    {
        self.running = None;
        self.status = Some(
            match result {
                Ok(text) => StatusMsg { ok: true, text },
                Err(text) => StatusMsg { ok: false, text },
            },
        );
    }

    /// Says something without any work.
    pub fn report(&mut self, ok: bool, text: String)
        ensures
            final(self)@ == (JobsView {
                status: Some(StatusMsgView { ok, text: text@ }),
                ..old(self)@
            }),
    {
        self.status = Some(StatusMsg { ok, text });
    }

    /// Takes the last message away.
    pub fn dismiss(&mut self)
        ensures
            final(self)@ == (JobsView { status: None, ..old(self)@ }),
    {
        self.status = None;
    }
}

// ---------------------------------------------------------------------------
// Lists in forms
// ---------------------------------------------------------------------------

/// A list with one more item at its end, unless it has it.
pub open spec fn with_new(list: Seq<Seq<char>>, item: Seq<char>) -> Seq<Seq<char>> {
    if list.contains(item) {
        list
    } else {
        list.push(item)
    }
}

/// A list with more items, each unless it has it.
pub open spec fn with_all_new(list: Seq<Seq<char>>, items: Seq<Seq<char>>) -> Seq<Seq<char>>
    decreases items.len(),
{
    if items.len() == 0 {
        list
    } else {
        with_new(with_all_new(list, items.drop_last()), items.last())
    }
}

fn push_new(list: &mut Vec<String>, item: String)
    ensures
        final(list).deep_view() == with_new(old(list).deep_view(), item@),
{
    let ghost g = list.deep_view();
    if !among(list, item.as_str()) {
        let ghost x = item@;
        list.push(item);
        assert(list.deep_view() =~= g.push(x));
    }
}

/// A list without the item at an index, where there is one.
pub open spec fn without_index<A>(list: Seq<A>, i: int) -> Seq<A> {
    if 0 <= i < list.len() {
        list.remove(i)
    } else {
        list
    }
}

/// Whether there is more than whitespace.
pub open spec fn has_text(s: Seq<char>) -> bool {
    trimmed(s).len() > 0
}

fn has_some_text(s: &str) -> (r: bool)
    ensures
        r == has_text(s@),
{
    let t = trim(s);
    let cs = chars_of(t.as_str());
    cs.len() > 0
}

// ---------------------------------------------------------------------------
// A new base
// ---------------------------------------------------------------------------

/// The form for a new base.
#[derive(Debug)]
pub struct NewBaseForm {
    pub open: bool,
    pub name: String,
    pub repos: Vec<String>,
    pub manual_path: String,
}

/// What a [`NewBaseForm`] stands for.
#[verifier::ext_equal]
pub struct NewBaseView {
    pub open: bool,
    pub name: Seq<char>,
    pub repos: Seq<Seq<char>>,
    pub manual_path: Seq<char>,
}

impl View for NewBaseForm {
    type V = NewBaseView;

    open spec fn view(&self) -> NewBaseView {
        NewBaseView {
            open: self.open,
            name: self.name@,
            repos: self.repos.deep_view(),
            manual_path: self.manual_path@,
        }
    }
}

impl NewBaseView {
    /// The form with nothing in it.
    pub open spec fn blank() -> NewBaseView {
        NewBaseView {
            open: false,
            name: Seq::empty(),
            repos: Seq::empty(),
            manual_path: Seq::empty(),
        }
    }

    /// Whether the form can be submitted: with a name and a repo, while nothing
    /// else is done.
    pub open spec fn can_create(self, busy: bool) -> bool {
        has_text(self.name) && self.repos.len() > 0 && !busy
    }
}

impl NewBaseForm {
    /// The form with nothing in it.
    pub fn new() -> (r: NewBaseForm)
        ensures
            r@ == NewBaseView::blank(),
    {
        let f = NewBaseForm {
            open: false,
            name: String::new(),
            repos: Vec::new(),
            manual_path: String::new(),
        };
        assert(f@ =~= NewBaseView::blank());
        f
    }

    /// Adds the folders that were picked, each unless it is there.
    pub fn add_paths(&mut self, paths: Vec<String>)
        ensures
            final(self)@ == (NewBaseView {
                repos: with_all_new(old(self)@.repos, paths.deep_view()),
                ..old(self)@
            }),
    {
        let ghost v = self@;
        let ghost all = paths.deep_view();
        let ghost mut k: int = 0;
        let mut rest = paths;
        assert(all.skip(0) =~= all);
        assert(with_all_new(v.repos, all.take(0)) == v.repos);
        while rest.len() > 0
            invariant
                0 <= k <= all.len(),
                rest.deep_view() == all.skip(k),
                self@ == (NewBaseView { repos: with_all_new(v.repos, all.take(k)), ..v }),
            decreases rest@.len(),
        {
            let ghost left = rest.deep_view();
            let p = rest.remove(0);
            proof {
                assert(left.len() == all.len() - k);
                assert(left[0] == p@);
                assert(all.skip(k)[0] == all[k]);
                assert(rest.deep_view() =~= left.skip(1));
                assert(all.skip(k).skip(1) =~= all.skip(k + 1));
                assert(all.take(k + 1).drop_last() =~= all.take(k));
                assert(all.take(k + 1).last() == p@);
                k = k + 1;
            }
            push_new(&mut self.repos, p);
        }
        assert(all.take(k) =~= all);
    }

    /// Adds the path that was typed in, where there is one.
    pub fn add_manual(&mut self, env: &Environment)
        ensures
            final(self)@ == (if has_text(old(self)@.manual_path) {
                NewBaseView {
                    repos: with_new(
                        old(self)@.repos,
                        env@.expand(trimmed(old(self)@.manual_path)),
                    ),
                    manual_path: Seq::empty(),
                    ..old(self)@
                }
            } else {
                old(self)@
            }),
    {
        if has_some_text(self.manual_path.as_str()) {
            let t = trim(self.manual_path.as_str());
            let p = expand_tilde(t.as_str(), env);
            push_new(&mut self.repos, p);
            self.manual_path = String::new();
            assert(self.manual_path@ =~= Seq::<char>::empty());
        }
    }

    /// Takes a repo out.
    pub fn remove(&mut self, i: usize)
        ensures
            final(self)@ == (NewBaseView {
                repos: without_index(old(self)@.repos, i as int),
                ..old(self)@
            }),
    {
        let ghost v = self@;
        if i < self.repos.len() {
            self.repos.remove(i);
            assert(self.repos.deep_view() =~= v.repos.remove(i as int));
        }
    }

    /// Whether the form can be submitted.
    pub fn can_create(&self, busy: bool) -> (r: bool)
        ensures
            r == self@.can_create(busy),
    {
        has_some_text(self.name.as_str()) && self.repos.len() > 0 && !busy
    }

    /// What the form asks for.
    pub fn submit(&self) -> (r: PendingAction)
        ensures
            r.deep_view() == (PendingActionView::CreateBase {
                name: trimmed(self@.name),
                paths: self@.repos,
            }),
    {
        PendingAction::CreateBase {
            name: trim(self.name.as_str()),
            paths: copy_strings(&self.repos),
        }
    }

    /// Closes the form and empties it.
    pub fn close(&mut self)
        ensures
            final(self)@ == NewBaseView::blank(),
    {
        *self = NewBaseForm::new();
    }
}

// ---------------------------------------------------------------------------
// Editing a base
// ---------------------------------------------------------------------------

/// The form for a base that is there. Its name stays.
#[derive(Debug)]
pub struct EditBaseForm {
    pub open: bool,
    pub name: String,
    pub repos: Vec<RepoRef>,
    pub branch_from: String,
    pub copy_files: Vec<String>,
    pub new_copy_file: String,
    pub error: Option<String>,
}

/// What an [`EditBaseForm`] stands for.
#[verifier::ext_equal]
pub struct EditBaseView {
    pub open: bool,
    pub name: Seq<char>,
    pub repos: Seq<RepoRefView>,
    pub branch_from: Seq<char>,
    pub copy_files: Seq<Seq<char>>,
    pub new_copy_file: Seq<char>,
    pub error: Option<Seq<char>>,
}

impl View for EditBaseForm {
    type V = EditBaseView;

    open spec fn view(&self) -> EditBaseView {
        EditBaseView {
            open: self.open,
            name: self.name@,
            repos: self.repos.deep_view(),
            branch_from: self.branch_from@,
            copy_files: self.copy_files.deep_view(),
            new_copy_file: self.new_copy_file@,
            error: self.error.deep_view(),
        }
    }
}

/// Whether a list has a repo with this path.
pub open spec fn has_repo(repos: Seq<RepoRefView>, path: Seq<char>) -> bool {
    exists|i: int| 0 <= i < repos.len() && (#[trigger] repos[i]).path == path
}

/// What came of folders that were picked: the repos, each unless it is there, and
/// what was wrong with the last that is none.
pub open spec fn after_picks(f: EditBaseView, picks: Seq<Result<RepoRefView, ErrorView>>) -> EditBaseView
    decreases picks.len(),
{
    if picks.len() == 0 {
        EditBaseView { error: None, ..f }
    } else {
        let g = after_picks(f, picks.drop_last());
        match picks.last() {
            Ok(repo) => if has_repo(g.repos, repo.path) {
                g
            } else {
                EditBaseView { repos: g.repos.push(repo), ..g }
            },
            Err(e) => EditBaseView { error: Some(e.message()), ..g },
        }
    }
}

/// A list of results, part by part.
pub open spec fn picks_view(picks: Seq<Result<RepoRef, Error>>) -> Seq<
    Result<RepoRefView, ErrorView>,
> {
    picks.map_values(
        |p: Result<RepoRef, Error>|
            match p {
                Ok(x) => Ok::<RepoRefView, ErrorView>(x.deep_view()),
                Err(e) => Err::<RepoRefView, ErrorView>(e@),
            },
    )
}

impl EditBaseView {
    /// The form with a base in it.
    pub open spec fn of_base(name: Seq<char>, base: BaseView) -> EditBaseView {
        EditBaseView {
            open: true,
            name,
            repos: base.repos,
            branch_from: match base.branch_from {
                Some(b) => b,
                None => Seq::empty(),
            },
            copy_files: base.copy_files,
            new_copy_file: Seq::empty(),
            error: None,
        }
    }

    /// The base that the form describes.
    pub open spec fn base(self) -> BaseView {
        BaseView {
            repos: self.repos,
            branch_from: if has_text(self.branch_from) {
                Some(trimmed(self.branch_from))
            } else {
                None
            },
            copy_files: self.copy_files,
        }
    }
}

impl EditBaseForm {
    /// The form with nothing in it.
    pub fn new() -> (r: EditBaseForm)
        ensures
            r@ == (EditBaseView {
                open: false,
                name: Seq::empty(),
                repos: Seq::empty(),
                branch_from: Seq::empty(),
                copy_files: Seq::empty(),
                new_copy_file: Seq::empty(),
                error: None,
            }),
    {
        let f = EditBaseForm {
            open: false,
            name: String::new(),
            repos: Vec::new(),
            branch_from: String::new(),
            copy_files: Vec::new(),
            new_copy_file: String::new(),
            error: None,
        };
        assert(f@ =~= EditBaseView {
            open: false,
            name: Seq::empty(),
            repos: Seq::empty(),
            branch_from: Seq::empty(),
            copy_files: Seq::empty(),
            new_copy_file: Seq::empty(),
            error: None,
        });
        f
    }

    /// Opens the form with a base in it.
    pub fn open_edit_base(name: &str, base: &Base) -> (r: EditBaseForm)
        ensures
            r@ == EditBaseView::of_base(name@, base.deep_view()),
    {
        let branch_from = match &base.branch_from {
            Some(b) => b.clone(),
            None => String::new(),
        };
        let f = EditBaseForm {
            open: true,
            name: own(name),
            repos: copy_repos(&base.repos),
            branch_from,
            copy_files: copy_strings(&base.copy_files),
            new_copy_file: String::new(),
            error: None,
        };
        assert(f.new_copy_file@ =~= Seq::<char>::empty());
        assert(base.branch_from is None ==> f.branch_from@ =~= Seq::<char>::empty());
        f
    }

    /// Takes a repo out.
    pub fn remove_repo(&mut self, i: usize)
        ensures
            final(self)@ == (EditBaseView {
                repos: without_index(old(self)@.repos, i as int),
                ..old(self)@
            }),
    {
        let ghost v = self@;
        if i < self.repos.len() {
            self.repos.remove(i);
            assert(self.repos.deep_view() =~= v.repos.remove(i as int));
        }
    }

    /// Takes in what came of folders that were picked.
    pub fn add_repos(&mut self, picks: Vec<Result<RepoRef, Error>>)
        ensures
            final(self)@ == after_picks(old(self)@, picks_view(picks@)),
    {
        let ghost v = self@;
        let ghost all = picks_view(picks@);
        let ghost mut k: int = 0;
        self.error = None;
        let mut rest = picks;
        assert(rest@.skip(0) =~= rest@);
        assert(picks@.skip(0) =~= picks@);
        assert(self@ =~= after_picks(v, all.take(0)));
        while rest.len() > 0
            invariant
                all == picks_view(picks@),
                0 <= k <= all.len(),
                rest@ == picks@.skip(k),
                self@ == after_picks(v, all.take(k)),
            decreases rest@.len(),
        {
            let ghost left = rest@;
            let p = rest.remove(0);
            proof {
                assert(left.len() == all.len() - k);
                assert(picks@.skip(k)[0] == picks@[k]);
                assert(p == picks@[k]);
                assert(rest@ =~= picks@.skip(k + 1));
                assert(all.take(k + 1).drop_last() =~= all.take(k));
                assert(all.take(k + 1).last() == all[k]);
                k = k + 1;
            }
            let ghost here = self@;
            match p {
                Ok(repo) => {
                    let mut there = false;
                    for i in 0..self.repos.len()
                        invariant
                            here == self@,
                            there == (exists|j: int|
                                0 <= j < i && (#[trigger] here.repos[j]).path == repo.path@),
                    {
                        assert(here.repos[i as int].path == self.repos@[i as int].path@);
                        if same(self.repos[i].path.as_str(), repo.path.as_str()) {
                            there = true;
                        }
                    }
                    assert(there == has_repo(here.repos, repo.path@));
                    if !there {
                        let ghost x = repo.deep_view();
                        self.repos.push(repo);
                        assert(self.repos.deep_view() =~= here.repos.push(x));
                    }
                },
                Err(e) => {
                    self.error = Some(e.message());
                },
            }
        }
        assert(all.take(k) =~= all);
    }

    /// Adds the file that was typed in, where there is one, unless it is there.
    pub fn add_copy_file(&mut self)
        ensures
            final(self)@ == (if has_text(old(self)@.new_copy_file) {
                EditBaseView {
                    copy_files: with_new(
                        old(self)@.copy_files,
                        trimmed(old(self)@.new_copy_file),
                    ),
                    new_copy_file: Seq::empty(),
                    ..old(self)@
                }
            } else {
                old(self)@
            }),
    {
        if has_some_text(self.new_copy_file.as_str()) {
            let f = trim(self.new_copy_file.as_str());
            push_new(&mut self.copy_files, f);
            self.new_copy_file = String::new();
            assert(self.new_copy_file@ =~= Seq::<char>::empty());
        }
    }

    /// Takes a file out.
    pub fn remove_copy_file(&mut self, i: usize)
        ensures
            final(self)@ == (EditBaseView {
                copy_files: without_index(old(self)@.copy_files, i as int),
                ..old(self)@
            }),
    {
        let ghost v = self@;
        if i < self.copy_files.len() {
            self.copy_files.remove(i);
            assert(self.copy_files.deep_view() =~= v.copy_files.remove(i as int));
        }
    }

    /// Whether the form can be saved: a base has at least one repo.
    pub fn can_save(&self, busy: bool) -> (r: bool)
        ensures
            r == (self@.repos.len() > 0 && !busy),
    {
        self.repos.len() > 0 && !busy
    }

    /// The base that the form describes.
    pub fn base(&self) -> (r: Base)
        ensures
            r.deep_view() == self@.base(),
    {
        let branch_from = if has_some_text(self.branch_from.as_str()) {
            Some(trim(self.branch_from.as_str()))
        } else {
            None
        };
        Base {
            repos: copy_repos(&self.repos),
            branch_from,
            copy_files: copy_strings(&self.copy_files),
        }
    }

    /// Takes in what saving came to: the form is closed where it worked, else it
    /// says why it did not. Gives what is said of it.
    pub fn saved(&mut self, result: Result<(), Error>) -> (r: Option<String>)
        ensures
            match result {
                Ok(_) => r.deep_view() == Some("Base '"@ + old(self)@.name + "' updated"@)
                    && final(self)@ == old(self)@.closed(),
                Err(e) => r is None && final(self)@ == (EditBaseView {
                    error: Some(e@.message()),
                    ..old(self)@
                }),
            },
    {
        match result {
            Ok(_) => {
                let text = cat3("Base '", self.name.as_str(), "' updated");
                self.close();
                Some(text)
            },
            Err(e) => {
                self.error = Some(e.message());
                None
            },
        }
    }

    /// Closes the form and empties it.
    pub fn close(&mut self)
        ensures
            final(self)@ == old(self)@.closed(),
    {
        self.open = false;
        self.name = String::new();
        self.repos = Vec::new();
        self.copy_files = Vec::new();
        self.new_copy_file = String::new();
        self.error = None;
        assert(self.name@ =~= Seq::<char>::empty());
        assert(self.repos.deep_view() =~= Seq::<RepoRefView>::empty());
        assert(self.copy_files.deep_view() =~= Seq::<Seq<char>>::empty());
        assert(self.new_copy_file@ =~= Seq::<char>::empty());
    }
}

impl EditBaseView {
    /// The form after it has been closed.
    pub open spec fn closed(self) -> EditBaseView {
        EditBaseView {
            open: false,
            name: Seq::empty(),
            repos: Seq::empty(),
            branch_from: self.branch_from,
            copy_files: Seq::empty(),
            new_copy_file: Seq::empty(),
            error: None,
        }
    }
}

/// A base that is opened and saved without a change stays as it was, unless its
/// start of branches has whitespace around it.
pub proof fn edit_keeps_base(name: Seq<char>, base: BaseView)
    requires
        base.branch_from is Some ==> trimmed(base.branch_from->0) == base.branch_from->0
            && base.branch_from->0.len() > 0,
    ensures
        EditBaseView::of_base(name, base).base() == base,
        EditBaseView::of_base(name, base).open,
        EditBaseView::of_base(name, base).name == name,
        EditBaseView::of_base(name, base).error is None,
{
    assert(trimmed(Seq::<char>::empty()) =~= Seq::<char>::empty());
}

// ---------------------------------------------------------------------------
// A new workspace
// ---------------------------------------------------------------------------

/// How a workspace is created: by describing it, or by filling it in.
#[derive(Debug, Clone, Copy, PartialEq, Eq, Structural)]
pub enum NewWsMode {
    Ai,
    Manual,
}

/// The form for a new workspace.
#[derive(Debug)]
pub struct NewWorkspaceForm {
    pub open: bool,
    pub mode: NewWsMode,
    pub name: String,
    pub base: Option<String>,
    pub prompt: String,
    pub prompt_base: Option<String>,
}

/// What a [`NewWorkspaceForm`] stands for.
#[verifier::ext_equal]
pub struct NewWorkspaceView {
    pub open: bool,
    pub mode: NewWsMode,
    pub name: Seq<char>,
    pub base: Option<Seq<char>>,
    pub prompt: Seq<char>,
    pub prompt_base: Option<Seq<char>>,
}

impl View for NewWorkspaceForm {
    type V = NewWorkspaceView;

    open spec fn view(&self) -> NewWorkspaceView {
        NewWorkspaceView {
            open: self.open,
            mode: self.mode,
            name: self.name@,
            base: self.base.deep_view(),
            prompt: self.prompt@,
            prompt_base: self.prompt_base.deep_view(),
        }
    }
}

/// Whether a name has no whitespace in it, and is one.
pub open spec fn is_plain_name(s: Seq<char>) -> bool {
    s.len() > 0 && forall|i: int| 0 <= i < s.len() ==> !is_space(#[trigger] s[i])
}

impl NewWorkspaceView {
    /// Whether what was filled in can be created.
    pub open spec fn can_create(self, busy: bool) -> bool {
        is_plain_name(trimmed(self.name)) && self.base is Some && !busy
    }

    /// Whether what was described can be created.
    pub open spec fn can_ask(self, busy: bool) -> bool {
        has_text(self.prompt) && self.prompt_base is Some && !busy
    }

    /// The form after it has been opened, with the first base where none is chosen.
    pub open spec fn opened(self, first_base: Option<Seq<char>>) -> NewWorkspaceView {
        NewWorkspaceView {
            open: true,
            base: if self.base is Some {
                self.base
            } else {
                first_base
            },
            prompt_base: if self.prompt_base is Some {
                self.prompt_base
            } else {
                first_base
            },
            ..self
        }
    }

    /// What the form asks for, where it can be submitted.
    pub open spec fn asks_for(self, busy: bool) -> Option<PendingActionView> {
        match self.mode {
            NewWsMode::Ai => if self.can_ask(busy) {
                Some(
                    PendingActionView::CreateWorkspaceAi {
                        prompt: trimmed(self.prompt),
                        base: self.prompt_base,
                    },
                )
            } else {
                None
            },
            NewWsMode::Manual => if self.can_create(busy) {
                Some(
                    PendingActionView::CreateWorkspace {
                        name: trimmed(self.name),
                        base: self.base->0,
                    },
                )
            } else {
                None
            },
        }
    }

    /// The form after it has been closed. It remembers how a workspace is created.
    pub open spec fn closed(self) -> NewWorkspaceView {
        NewWorkspaceView {
            open: false,
            mode: self.mode,
            name: Seq::empty(),
            base: None,
            prompt: Seq::empty(),
            prompt_base: None,
        }
    }
}

impl NewWorkspaceForm {
    /// The form with nothing in it.
    pub fn new() -> (r: NewWorkspaceForm)
        ensures
            r@ == (NewWorkspaceView {
                open: false,
                mode: NewWsMode::Ai,
                name: Seq::empty(),
                base: None,
                prompt: Seq::empty(),
                prompt_base: None,
            }),
    {
        let f = NewWorkspaceForm {
            open: false,
            mode: NewWsMode::Ai,
            name: String::new(),
            base: None,
            prompt: String::new(),
            prompt_base: None,
        };
        assert(f.name@ =~= Seq::<char>::empty());
        assert(f.prompt@ =~= Seq::<char>::empty());
        f
    }

    /// Opens the form, with the first base where none is chosen.
    pub fn open_new_workspace(&mut self, first_base: Option<&str>)
        ensures
            final(self)@ == old(self)@.opened(
                match first_base {
                    Some(b) => Some(b@),
                    None => None,
                },
            ),
    {
        self.open = true;
        if self.base.is_none() {
            if let Some(b) = first_base {
                self.base = Some(own(b));
            }
        }
        if self.prompt_base.is_none() {
            if let Some(b) = first_base {
                self.prompt_base = Some(own(b));
            }
        }
    }

    /// Whether what was typed in is the name of a workspace.
    pub fn name_ok(&self) -> (r: bool)
        ensures
            r == is_plain_name(trimmed(self@.name)),
    {
        let t = trim(self.name.as_str());
        let cs = chars_of(t.as_str());
        if cs.len() == 0 {
            return false;
        }
        for i in 0..cs.len()
            invariant
                cs@ == trimmed(self@.name),
                forall|j: int| 0 <= j < i ==> !is_space(#[trigger] cs@[j]),
        {
            if is_whitespace(cs[i]) {
                return false;
            }
        }
        true
    }

    /// Whether it is said that the name is wrong: not while nothing is typed in.
    pub fn complains(&self) -> (r: bool)
        ensures
            r == (self@.name.len() > 0 && !is_plain_name(trimmed(self@.name))),
    {
        let cs = chars_of(self.name.as_str());
        cs.len() > 0 && !self.name_ok()
    }

    /// Whether what was filled in can be created.
    pub fn can_create(&self, busy: bool) -> (r: bool)
        ensures
            r == self@.can_create(busy),
    {
        self.name_ok() && self.base.is_some() && !busy
    }

    /// Whether what was described can be created.
    pub fn can_ask(&self, busy: bool) -> (r: bool)
        ensures
            r == self@.can_ask(busy),
    {
        has_some_text(self.prompt.as_str()) && self.prompt_base.is_some() && !busy
    }

    /// What the form asks for, where it can be submitted.
    pub fn submit(&self, busy: bool) -> (r: Option<PendingAction>)
        ensures
            r.deep_view() == self@.asks_for(busy),
    {
        match self.mode {
            NewWsMode::Ai => {
                if self.can_ask(busy) {
                    Some(
                        PendingAction::CreateWorkspaceAi {
                            prompt: trim(self.prompt.as_str()),
                            base: self.prompt_base.clone(),
                        },
                    )
                } else {
                    None
                }
            },
            NewWsMode::Manual => {
                if self.can_create(busy) {
                    match &self.base {
                        Some(b) => Some(
                            PendingAction::CreateWorkspace {
                                name: trim(self.name.as_str()),
                                base: b.clone(),
                            },
                        ),
                        None => None,
                    }
                } else {
                    None
                }
            },
        }
    }

    /// Closes the form and empties it.
    pub fn close(&mut self)
        ensures
            final(self)@ == old(self)@.closed(),
    {
        self.open = false;
        self.name = String::new();
        self.base = None;
        self.prompt = String::new();
        self.prompt_base = None;
        assert(self.name@ =~= Seq::<char>::empty());
        assert(self.prompt@ =~= Seq::<char>::empty());
    }
}

// ---------------------------------------------------------------------------
// Removing
// ---------------------------------------------------------------------------

/// What is to be removed, if the user is sure.
#[derive(Debug)]
pub enum RemoveTarget {
    Workspace(String),
    Base(String),
}

/// What a [`RemoveTarget`] stands for.
pub enum RemoveTargetView {
    Workspace(Seq<char>),
    Base(Seq<char>),
}

impl DeepView for RemoveTarget {
    type V = RemoveTargetView;

    open spec fn deep_view(&self) -> RemoveTargetView {
        match self {
            RemoveTarget::Workspace(n) => RemoveTargetView::Workspace(n@),
            RemoveTarget::Base(n) => RemoveTargetView::Base(n@),
        }
    }
}

/// What is said of removing a workspace, behind its name.
pub const REMOVE_WORKSPACE_NOTE: &'static str =
    "'?\n\nThis removes its worktrees, deletes their branches where possible, and deletes the workspace directory.";

/// What is said of removing a base, behind its name.
pub const REMOVE_BASE_NOTE: &'static str =
    "'?\n\nThis only deletes the base definition. Your repos and any existing workspaces are left untouched.";

impl RemoveTargetView {
    /// What a yes asks for.
    pub open spec fn action(self) -> PendingActionView {
        match self {
            RemoveTargetView::Workspace(n) => PendingActionView::RemoveWorkspace(n),
            RemoveTargetView::Base(n) => PendingActionView::RemoveBase(n),
        }
    }
}

impl RemoveTarget {
    /// The title of the question.
    pub fn title(&self) -> (r: &'static str)
        ensures
            r@ == (match self.deep_view() {
                RemoveTargetView::Workspace(_) => "Remove workspace?"@,
                RemoveTargetView::Base(_) => "Remove base?"@,
            }),
    {
        match self {
            RemoveTarget::Workspace(_) => "Remove workspace?",
            RemoveTarget::Base(_) => "Remove base?",
        }
    }

    /// The question.
    pub fn question(&self) -> (r: String)
        ensures
            r@ == (match self.deep_view() {
                RemoveTargetView::Workspace(n) => "Remove workspace '"@ + n
                    + REMOVE_WORKSPACE_NOTE@,
                RemoveTargetView::Base(n) => "Remove base '"@ + n + REMOVE_BASE_NOTE@,
            }),
    {
        match self {
            RemoveTarget::Workspace(n) => cat3(
                "Remove workspace '",
                n.as_str(),
                REMOVE_WORKSPACE_NOTE,
            ),
            RemoveTarget::Base(n) => cat3("Remove base '", n.as_str(), REMOVE_BASE_NOTE),
        }
    }

    /// What a yes asks for.
    pub fn confirmed(&self) -> (r: PendingAction)
        ensures
            r.deep_view() == self.deep_view().action(),
    {
        match self {
            RemoveTarget::Workspace(n) => PendingAction::RemoveWorkspace(n.clone()),
            RemoveTarget::Base(n) => PendingAction::RemoveBase(n.clone()),
        }
    }
}

// ---------------------------------------------------------------------------
// Linking windows
// ---------------------------------------------------------------------------

/// The form for the windows of a workspace.
#[derive(Debug)]
pub struct LinkForm {
    pub open: bool,
    pub workspace: Option<String>,
    pub candidates: Vec<WindowInfo>,
    pub checked: Vec<bool>,
    /// Whether windows may be looked at.
    pub trusted: bool,
}

/// What a [`LinkForm`] stands for.
#[verifier::ext_equal]
pub struct LinkFormView {
    pub open: bool,
    pub workspace: Option<Seq<char>>,
    pub candidates: Seq<WindowInfoView>,
    pub checked: Seq<bool>,
    pub trusted: bool,
}

impl View for LinkForm {
    type V = LinkFormView;

    open spec fn view(&self) -> LinkFormView {
        LinkFormView {
            open: self.open,
            workspace: self.workspace.deep_view(),
            candidates: self.candidates.deep_view(),
            checked: self.checked@,
            trusted: self.trusted,
        }
    }
}

/// Whether a window is linked.
pub open spec fn is_linked(w: WindowInfoView, links: Seq<LinkedWindowView>) -> bool {
    exists|i: int| 0 <= i < links.len() && same_target(w.link(), #[trigger] links[i])
}

/// Which of the windows are linked.
pub open spec fn linked_flags(
    windows: Seq<WindowInfoView>,
    links: Seq<LinkedWindowView>,
) -> Seq<bool> {
    windows.map_values(|w: WindowInfoView| is_linked(w, links))
}

/// The links to the windows that are checked.
pub open spec fn chosen_links(windows: Seq<WindowInfoView>, checked: Seq<bool>) -> Seq<
    LinkedWindowView,
>
    decreases windows.len(),
{
    if windows.len() == 0 {
        Seq::empty()
    } else {
        let rest = chosen_links(windows.drop_last(), checked.drop_last());
        if checked.last() {
            rest.push(windows.last().link())
        } else {
            rest
        }
    }
}

/// Which of the windows are linked.
fn flags(windows: &Vec<WindowInfo>, links: &Vec<LinkedWindow>) -> (r: Vec<bool>)
    ensures
        r@ == linked_flags(windows.deep_view(), links.deep_view()),
{
    let ghost v = windows.deep_view();
    let ghost l = links.deep_view();
    let mut out: Vec<bool> = Vec::new();
    for i in 0..windows.len()
        invariant
            v == windows.deep_view(),
            l == links.deep_view(),
            out@.len() == i,
            forall|j: int| 0 <= j < i ==> #[trigger] out@[j] == is_linked(v[j], l),
    {
        let w = &windows[i];
        assert(v[i as int] == w.deep_view());
        let mut there = false;
        for k in 0..links.len()
            invariant
                l == links.deep_view(),
                there == (exists|j: int|
                    0 <= j < k && same_target(w.deep_view().link(), #[trigger] l[j])),
        {
            assert(l[k as int] == links@[k as int].deep_view());
            if w.matches(&links[k]) {
                there = true;
            }
        }
        assert(there == is_linked(w.deep_view(), l));
        out.push(there);
    }
    assert(out@ =~= linked_flags(v, l));
    out
}

impl LinkFormView {
    /// With the windows that are open, none of which is offered unless they may be
    /// looked at; those that are linked are checked.
    pub open spec fn offering(
        self,
        trusted: bool,
        windows: Seq<WindowInfoView>,
        existing: Seq<LinkedWindowView>,
    ) -> LinkFormView {
        LinkFormView {
            candidates: if trusted {
                windows
            } else {
                Seq::empty()
            },
            checked: if trusted {
                linked_flags(windows, existing)
            } else {
                Seq::empty()
            },
            trusted,
            ..self
        }
    }
}

impl LinkForm {
    /// There is a mark for each window.
    pub open spec fn wf(&self) -> bool {
        self.candidates@.len() == self.checked@.len()
    }

    /// The form with nothing in it.
    pub fn new() -> (r: LinkForm)
        ensures
            r.wf(),
            r@ == (LinkFormView {
                open: false,
                workspace: None,
                candidates: Seq::empty(),
                checked: Seq::empty(),
                trusted: false,
            }),
    {
        let f = LinkForm {
            open: false,
            workspace: None,
            candidates: Vec::new(),
            checked: Vec::new(),
            trusted: false,
        };
        assert(f.candidates.deep_view() =~= Seq::<WindowInfoView>::empty());
        assert(f.checked@ =~= Seq::<bool>::empty());
        f
    }

    /// Opens the form for a workspace. `windows` are those that are open, none of
    /// which is offered unless they may be looked at; those that are linked are
    /// checked.
    pub fn open_link_windows(
        workspace: &str,
        trusted: bool,
        windows: Vec<WindowInfo>,
        existing: &Vec<LinkedWindow>,
    ) -> (r: LinkForm)
        ensures
            r.wf(),
            r@.open && r@.workspace == Some(workspace@),
            r@ == r@.offering(trusted, windows.deep_view(), existing.deep_view()),
    {
        let candidates = if trusted {
            windows
        } else {
            Vec::new()
        };
        assert(!trusted ==> candidates.deep_view() =~= Seq::<WindowInfoView>::empty());
        let checked = flags(&candidates, existing);
        assert(!trusted ==> checked@ =~= Seq::<bool>::empty());
        LinkForm { open: true, workspace: Some(own(workspace)), candidates, checked, trusted }
    }

    /// Looks at the windows again, for the same workspace.
    pub fn refresh(&mut self, trusted: bool, windows: Vec<WindowInfo>, existing: &Vec<LinkedWindow>)
        requires
            old(self).wf(),
        ensures
            final(self).wf(),
            final(self)@ == old(self)@.offering(trusted, windows.deep_view(), existing.deep_view()),
    {
        let candidates = if trusted {
            windows
        } else {
            Vec::new()
        };
        assert(!trusted ==> candidates.deep_view() =~= Seq::<WindowInfoView>::empty());
        let checked = flags(&candidates, existing);
        assert(!trusted ==> checked@ =~= Seq::<bool>::empty());
        self.candidates = candidates;
        self.checked = checked;
        self.trusted = trusted;
    }

    /// The links to the windows that are checked.
    pub fn links(&self) -> (r: Vec<LinkedWindow>)
        requires
            self.wf(),
        ensures
            r.deep_view() == chosen_links(self@.candidates, self@.checked),
    {
        let ghost v = self@.candidates;
        let ghost c = self@.checked;
        let mut out: Vec<LinkedWindow> = Vec::new();
        assert(out.deep_view() =~= chosen_links(v.take(0), c.take(0)));
        for i in 0..self.candidates.len()
            invariant
                self.wf(),
                v == self@.candidates,
                c == self@.checked,
                out.deep_view() == chosen_links(v.take(i as int), c.take(i as int)),
        {
            proof {
                assert(v.take(i + 1).drop_last() =~= v.take(i as int));
                assert(c.take(i + 1).drop_last() =~= c.take(i as int));
                assert(v.take(i + 1).last() == self.candidates@[i as int].deep_view());
                assert(c.take(i + 1).last() == self.checked@[i as int]);
            }
            if self.checked[i] {
                let ghost g = out.deep_view();
                let link = self.candidates[i].to_link();
                let ghost x = link.deep_view();
                out.push(link);
                assert(out.deep_view() =~= g.push(x));
            }
        }
        assert(v.take(v.len() as int) =~= v);
        assert(c.take(c.len() as int) =~= c);
        out
    }

    /// What the button to save says: how many windows are checked.
    pub fn save_label(&self) -> (r: String)
        requires
            self.wf(),
        ensures
            r@ == "Save ("@ + decimal_of(chosen_links(self@.candidates, self@.checked).len())
                + ")"@,
    {
        let links = self.links();
        assert(links@.len() == links.deep_view().len());
        let n = decimal(links.len() as u64);
        cat3("Save (", n.as_str(), ")")
    }

    /// The title of the form.
    pub fn title(&self) -> (r: String)
        ensures
            r@ == "Link windows · "@ + (match self@.workspace {
                Some(w) => w,
                None => Seq::empty(),
            }),
    {
        match &self.workspace {
            Some(w) => cat("Link windows · ", w.as_str()),
            None => {
                assert("Link windows · "@ + Seq::<char>::empty() =~= "Link windows · "@);
                own("Link windows · ")
            },
        }
    }

    /// Closes the form and empties it.
    pub fn close(&mut self)
        requires
            old(self).wf(),
        ensures
            final(self).wf(),
            final(self)@ == (LinkFormView {
                open: false,
                workspace: None,
                candidates: Seq::empty(),
                checked: Seq::empty(),
                ..old(self)@
            }),
    {
        self.open = false;
        self.workspace = None;
        self.candidates = Vec::new();
        self.checked = Vec::new();
        assert(self.candidates.deep_view() =~= Seq::<WindowInfoView>::empty());
        assert(self.checked@ =~= Seq::<bool>::empty());
    }
}

/// The windows that are offered as linked and saved again are those that were
/// linked: each of the links that is chosen means a window that was linked.
pub proof fn saving_keeps_links(
    windows: Seq<WindowInfoView>,
    links: Seq<LinkedWindowView>,
    j: int,
)
    requires
        0 <= j < chosen_links(windows, linked_flags(windows, links)).len(),
    ensures
        exists|i: int|
            0 <= i < links.len() && same_target(
                chosen_links(windows, linked_flags(windows, links))[j],
                #[trigger] links[i],
            ),
    decreases windows.len(),
{
    if windows.len() > 0 {
        let t = windows.drop_last();
        let f = linked_flags(windows, links);
        assert(f.drop_last() =~= linked_flags(t, links));
        let rest = chosen_links(t, linked_flags(t, links));
        if j < rest.len() {
            saving_keeps_links(t, links, j);
        } else {
            assert(f.last() == is_linked(windows.last(), links));
        }
    }
}

/// The links of a workspace without one of them.
pub fn unlink(links: &Vec<LinkedWindow>, i: usize) -> (r: Option<Vec<LinkedWindow>>)
    ensures
        r.deep_view() == (if i < links.deep_view().len() {
            Some(links.deep_view().remove(i as int))
        } else {
            None
        }),
{
    if i < links.len() {
        let mut out = crate::ai_link::copy_links(links);
        let ghost g = out.deep_view();
        out.remove(i);
        assert(out.deep_view() =~= g.remove(i as int));
        Some(out)
    } else {
        None
    }
}

// ---------------------------------------------------------------------------
// What the forms ask for
// ---------------------------------------------------------------------------

/// A workspace is asked for only while nothing else is done, and only with a base.
/// Where it is named, the name is what was typed in, without the whitespace around
/// it, and holds none; where it is described, the description is not blank.
pub proof fn only_good_requests(f: NewWorkspaceView, busy: bool)
    ensures
        busy ==> f.asks_for(busy) is None,
        f.asks_for(busy) is Some ==> (match f.asks_for(busy)->0 {
            PendingActionView::CreateWorkspace { name, base } => f.mode == NewWsMode::Manual && name
                == trimmed(f.name) && name.len() > 0 && f.base == Some(base) && forall|i: int|
                0 <= i < name.len() ==> !is_space(#[trigger] name[i]),
            PendingActionView::CreateWorkspaceAi { prompt, base } => f.mode == NewWsMode::Ai
                && prompt == trimmed(f.prompt) && prompt.len() > 0 && base is Some && base
                == f.prompt_base,
            _ => false,
        }),
        !busy && f.mode == NewWsMode::Manual && f.base is Some && trimmed(f.name).len() > 0 && (
        forall|i: int| 0 <= i < trimmed(f.name).len() ==> !is_space(#[trigger] trimmed(f.name)[i]))
            ==> f.asks_for(busy) is Some,
        !busy && f.mode == NewWsMode::Ai && f.prompt_base is Some && trimmed(f.prompt).len() > 0
            ==> f.asks_for(busy) is Some,
{
}

/// Folders that are picked are all there afterwards, after those that were there
/// before; nothing else is, and none is there twice that was not.
pub proof fn picked_folders(list: Seq<Seq<char>>, items: Seq<Seq<char>>, x: Seq<char>)
    ensures
        with_all_new(list, items).contains(x) <==> list.contains(x) || items.contains(x),
        list.is_prefix_of(with_all_new(list, items)),
        list.no_duplicates() ==> with_all_new(list, items).no_duplicates(),
    decreases items.len(),
{
    if items.len() > 0 {
        let t = items.drop_last();
        picked_folders(list, t, x);
        let rest = with_all_new(list, t);
        let all = with_all_new(list, items);
        if t.contains(x) {
            let i = choose|i: int| 0 <= i < t.len() && t[i] == x;
            assert(items[i] == x);
        }
        if items.contains(x) && items.last() != x {
            let i = choose|i: int| 0 <= i < items.len() && items[i] == x;
            assert(t[i] == x);
        }
        if items.last() == x {
            assert(items[items.len() - 1] == x);
            if !rest.contains(x) {
                assert(all[all.len() - 1] == x);
            }
        }
        if rest.contains(x) {
            let i = choose|i: int| 0 <= i < rest.len() && rest[i] == x;
            assert(all[i] == x);
        }
        if all.contains(x) && !rest.contains(x) {
            let i = choose|i: int| 0 <= i < all.len() && all[i] == x;
            if i < rest.len() {
                assert(rest[i] == x);
            }
        }
        assert(list =~= all.take(list.len() as int)) by {
            assert(list =~= rest.take(list.len() as int));
        }
    } else {
        assert(list =~= list.take(list.len() as int));
    }
}

/// Repos that are picked for a base are added behind those that it has: every one
/// that could be taken is there afterwards, by its path, and none whose path was
/// there before is added. What could not be taken is told, the last of it.
pub proof fn picked_repos(f: EditBaseView, picks: Seq<Result<RepoRefView, ErrorView>>, i: int)
    requires
        0 <= i < picks.len(),
    ensures
        f.repos.is_prefix_of(after_picks(f, picks).repos),
        picks[i] is Ok ==> has_repo(after_picks(f, picks).repos, picks[i]->Ok_0.path),
        after_picks(f, picks).error is None <==> forall|k: int|
            0 <= k < picks.len() ==> (#[trigger] picks[k]) is Ok,
        picks.last() is Err ==> after_picks(f, picks).error == Some(
            picks.last()->Err_0.message(),
        ),
        after_picks(f, picks).branch_from == f.branch_from,
        after_picks(f, picks).copy_files == f.copy_files,
        after_picks(f, picks).name == f.name,
    decreases picks.len(),
{
    let t = picks.drop_last();
    let n = picks.len() - 1;
    let g = after_picks(f, t);
    let r = after_picks(f, picks);
    assert forall|k: int| 0 <= k < n implies t[k] == #[trigger] picks[k] by {}
    assert(picks[n] == picks.last());
    if t.len() > 0 {
        picked_repos(f, t, if i < n { i } else { 0 });
        if i < n {
            assert(t[i] == picks[i]);
        }
        if g.error is None {
            assert forall|k: int| 0 <= k < n implies (#[trigger] picks[k]) is Ok by {
                assert(t[k] is Ok);
            }
        } else {
            let k = choose|k: int| 0 <= k < t.len() && !((#[trigger] t[k]) is Ok);
            assert(!(picks[k] is Ok));
        }
    } else {
        assert(f.repos =~= g.repos.take(f.repos.len() as int));
    }
    assert(f.repos =~= r.repos.take(f.repos.len() as int)) by {
        assert(f.repos =~= g.repos.take(f.repos.len() as int));
    }
    assert forall|p: Seq<char>| has_repo(g.repos, p) implies has_repo(r.repos, p) by {
        let k = choose|k: int| 0 <= k < g.repos.len() && (#[trigger] g.repos[k]).path == p;
        assert(r.repos[k] == g.repos[k]);
    }
    if picks.last() is Ok && !has_repo(g.repos, picks.last()->Ok_0.path) {
        assert(r.repos[g.repos.len() as int] == picks.last()->Ok_0);
    }
}

/// The links that are saved are those to the windows that are checked, each of them
/// and no other.
pub proof fn checked_are_linked(windows: Seq<WindowInfoView>, checked: Seq<bool>, l: LinkedWindowView)
    requires
        windows.len() == checked.len(),
    ensures
        chosen_links(windows, checked).contains(l) <==> exists|i: int|
            0 <= i < windows.len() && checked[i] && (#[trigger] windows[i]).link() == l,
        chosen_links(windows, checked).len() == checked.filter(|b: bool| b).len(),
    decreases windows.len(),
{
    reveal(Seq::filter);
    if windows.len() > 0 {
        let (w, c) = (windows.drop_last(), checked.drop_last());
        let n = windows.len() - 1;
        checked_are_linked(w, c, l);
        let rest = chosen_links(w, c);
        let all = chosen_links(windows, checked);
        if rest.contains(l) {
            let k = choose|k: int| 0 <= k < rest.len() && rest[k] == l;
            assert(all[k] == l);
            let i = choose|i: int| 0 <= i < w.len() && c[i] && (#[trigger] w[i]).link() == l;
            assert(windows[i] == w[i] && checked[i] == c[i]);
        }
        if all.contains(l) && !rest.contains(l) {
            let k = choose|k: int| 0 <= k < all.len() && all[k] == l;
            if k < rest.len() {
                assert(rest[k] == l);
            }
            assert(windows[n].link() == l);
        }
        if exists|i: int|
            0 <= i < windows.len() && checked[i] && (#[trigger] windows[i]).link() == l {
            let i = choose|i: int|
                0 <= i < windows.len() && checked[i] && (#[trigger] windows[i]).link() == l;
            if i < n {
                assert(w[i] == windows[i] && c[i] == checked[i]);
            } else {
                assert(all[all.len() - 1] == l);
            }
        }
    }
}

/// A window is checked at first exactly where one of the links means it.
pub proof fn linked_are_checked(
    windows: Seq<WindowInfoView>,
    links: Seq<LinkedWindowView>,
    i: int,
)
    requires
        0 <= i < windows.len(),
    ensures
        linked_flags(windows, links).len() == windows.len(),
        linked_flags(windows, links)[i] <==> exists|k: int|
            0 <= k < links.len() && same_target(windows[i].link(), #[trigger] links[k]),
{
}

/// Taking one out of a list leaves the others, in their order.
pub proof fn others_stay<A>(list: Seq<A>, i: int, k: int)
    requires
        0 <= i < list.len(),
        0 <= k < list.len(),
    ensures
        without_index(list, i).len() == list.len() - 1,
        k < i ==> without_index(list, i)[k] == list[k],
        k > i ==> without_index(list, i)[k - 1] == list[k],
        forall|j: int| j < 0 || list.len() <= j ==> #[trigger] without_index(list, j) == list,
{
}

/// A base can be created with a name and a repo at least, and while nothing else is
/// done.
pub proof fn base_needs_name_and_repo(f: NewBaseView, busy: bool)
    ensures
        f.can_create(busy) <==> (exists|i: int|
            0 <= i < f.name.len() && !is_space(#[trigger] f.name[i])) && f.repos.len() > 0 && !busy,
{
    trimmed_law(f.name);
}

/// What is said while something is done, and when it is done, names what it is done
/// to.
pub proof fn work_is_named(name: Seq<char>, base: Seq<char>, paths: Seq<Seq<char>>, named: Seq<char>)
    ensures
        occurs(PendingActionView::CreateBase { name, paths }.done(named), "'"@ + name + "'"@),
        occurs(PendingActionView::CreateWorkspace { name, base }.done(named), "'"@ + name + "'"@),
        occurs(PendingActionView::RemoveBase(name).done(named), "'"@ + name + "'"@),
        occurs(PendingActionView::RemoveWorkspace(name).done(named), "'"@ + name + "'"@),
        occurs(
            PendingActionView::CreateWorkspaceAi { prompt: name, base: Some(base) }.done(named),
            "'"@ + named + "'"@,
        ),
{
    reveal_strlit("Base '");
    reveal_strlit("Workspace '");
    reveal_strlit("' created");
    reveal_strlit("' removed");
    reveal_strlit("'");
    lemma_quoted_in("Base '"@, name, "' created"@);
    lemma_quoted_in("Workspace '"@, name, "' created"@);
    lemma_quoted_in("Base '"@, name, "' removed"@);
    lemma_quoted_in("Workspace '"@, name, "' removed"@);
    lemma_quoted_in("Workspace '"@, named, "' created"@);
}

proof fn lemma_quoted_in(a: Seq<char>, name: Seq<char>, b: Seq<char>)
    requires
        a.len() > 0,
        b.len() > 0,
        a.last() == '\'',
        b[0] == '\'',
    ensures
        occurs(a + name + b, "'"@ + name + "'"@),
{
    reveal_strlit("'");
    let s = a + name + b;
    let p = "'"@ + name + "'"@;
    let k = a.len() - 1;
    assert(s.subrange(k, k + p.len()) =~= p);
    assert(occurs_at(s, p, k));
}

/// The base that a form describes has the repos and files that are in it, and starts
/// its branches from what was typed in, without the whitespace around it; a blank
/// field leaves the default.
pub proof fn form_describes_base(f: EditBaseView)
    ensures
        f.base().repos == f.repos,
        f.base().copy_files == f.copy_files,
        f.base().branch_from is Some <==> exists|i: int|
            0 <= i < f.branch_from.len() && !is_space(#[trigger] f.branch_from[i]),
        f.base().branch_from is Some ==> f.base().branch_from->0 == trimmed(f.branch_from),
{
    trimmed_law(f.branch_from);
}

/// Windows are offered only where they may be looked at, and then all of them, with a
/// mark for each; saving without a change keeps a link to every window that was
/// linked and is open.
pub proof fn windows_offered_if_trusted(
    f: LinkFormView,
    trusted: bool,
    windows: Seq<WindowInfoView>,
    existing: Seq<LinkedWindowView>,
    i: int,
)
    ensures
        ({
            let g = f.offering(trusted, windows, existing);
            &&& g.open == f.open
            &&& g.workspace == f.workspace
            &&& g.trusted == trusted
            &&& g.candidates.len() == g.checked.len()
            &&& trusted ==> g.candidates == windows
            &&& !trusted ==> g.candidates.len() == 0
            &&& trusted && 0 <= i < windows.len() && is_linked(windows[i], existing)
                ==> chosen_links(g.candidates, g.checked).contains(windows[i].link())
        }),
{
    if trusted && 0 <= i < windows.len() && is_linked(windows[i], existing) {
        let flags = linked_flags(windows, existing);
        checked_are_linked(windows, flags, windows[i].link());
        assert(flags[i] && windows[i].link() == windows[i].link());
    }
}

/// A form that is opened keeps what was chosen, and chooses the first base where
/// nothing was; what was typed in stays, until it is closed, which keeps nothing but
/// the way in which a workspace is created.
pub proof fn form_keeps_choices(f: NewWorkspaceView, first_base: Option<Seq<char>>)
    ensures
        f.opened(first_base).open,
        f.base is Some ==> f.opened(first_base).base == f.base,
        f.base is None ==> f.opened(first_base).base == first_base,
        f.prompt_base is Some ==> f.opened(first_base).prompt_base == f.prompt_base,
        f.prompt_base is None ==> f.opened(first_base).prompt_base == first_base,
        f.opened(first_base).name == f.name,
        f.opened(first_base).prompt == f.prompt,
        f.opened(first_base).mode == f.mode,
        !f.closed().open,
        f.closed().mode == f.mode,
        f.closed().name.len() == 0 && f.closed().prompt.len() == 0,
        f.closed().opened(first_base).base == first_base,
        forall|busy: bool| (#[trigger] f.closed().asks_for(busy)) is None,
{
    let n: Seq<char> = Seq::empty();
    assert(trimmed(n).len() == 0);
}

/// A yes removes what was asked about: a workspace for a workspace, a base for a
/// base, under the same name, and says so.
pub proof fn removes_what_was_asked(name: Seq<char>)
    ensures
        RemoveTargetView::Workspace(name).action() == PendingActionView::RemoveWorkspace(name),
        RemoveTargetView::Base(name).action() == PendingActionView::RemoveBase(name),
        occurs(RemoveTargetView::Workspace(name).action().label(), "'"@ + name + "'"@),
        occurs(RemoveTargetView::Base(name).action().label(), "'"@ + name + "'"@),
{
    reveal_strlit("Removing workspace '");
    reveal_strlit("Removing base '");
    reveal_strlit("'…");
    lemma_quoted_in("Removing workspace '"@, name, "'…"@);
    lemma_quoted_in("Removing base '"@, name, "'…"@);
}

/// One piece of work is done at a time: another one that is asked for meanwhile
/// changes nothing. After one has come to something, that is told, and the next one
/// can begin, which takes what was told away.
pub proof fn one_job_at_a_time(j: JobsView, a: Seq<char>, b: Seq<char>, ok: bool, text: Seq<char>)
    ensures
        j.started(a).running is Some,
        j.started(a).started(b) == j.started(a),
        j.running is None ==> j.started(a).running == Some(a) && j.started(a).status is None,
        j.running is Some ==> j.started(a) == j,
        j.finished(ok, text).running is None,
        j.finished(ok, text).status is Some && j.finished(ok, text).status->0.ok == ok
            && j.finished(ok, text).status->0.text == text,
        j.finished(ok, text).started(a).running == Some(a),
{
}

} // verus!
