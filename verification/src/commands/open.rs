//! Opening a workspace.
use vstd::prelude::*;

use crate::assistant::Assistant;
use crate::cli::{creation_mode, opening_mode, ClaudeMode};
use crate::error::{outcome, Error, ErrorView};
use crate::text::{cat, own_all};
use crate::workspace::{WorkspaceConfig, WorkspaceConfigView};

verus! {

/// The arguments that the assistant is launched with, where it is.
pub open spec fn launch(mode: ClaudeMode) -> Option<Seq<Seq<char>>> {
    match mode {
        ClaudeMode::Off => None,
        ClaudeMode::Normal => Some(Seq::empty()),
        ClaudeMode::DangerouslySkipPermissions => Some(seq!["--dangerously-skip-permissions"@]),
    }
}

/// The arguments that the assistant is launched with, where it is.
pub fn claude_args(mode: ClaudeMode) -> (r: Option<Vec<String>>)
    ensures
        r.deep_view() == launch(mode),
{
    match mode {
        ClaudeMode::Off => None,
        ClaudeMode::Normal => {
            let v: Vec<String> = Vec::new();
            assert(v.deep_view() =~= Seq::<Seq<char>>::empty());
            Some(v)
        },
        ClaudeMode::DangerouslySkipPermissions => {
            let v = vec!["--dangerously-skip-permissions"];
            assert(v.deep_view() =~= seq!["--dangerously-skip-permissions"@]);
            Some(own_all(&v))
        },
    }
}

/// What a session of the assistant comes to.
pub fn claude_exit(who: &Assistant, success: bool) -> (r: Result<(), Error>)
    ensures
        outcome(r) == (if success {
            Ok(())
        } else {
            Err(ErrorView::Git(who@.program + " exited with non-zero status"@))
        }),
{
    if success {
        Ok(())
    } else {
        Err(Error::Git(cat(who.program.as_str(), " exited with non-zero status")))
    }
}

/// What opening a workspace comes to.
#[derive(Debug)]
pub enum Opening {
    /// Its path is printed.
    Print(String),
    /// The assistant is launched there.
    Launch { dir: String, args: Vec<String> },
}

/// What a [`Opening`] stands for.
pub enum OpeningView {
    Print(Seq<char>),
    Launch { dir: Seq<char>, args: Seq<Seq<char>> },
}

impl DeepView for Opening {
    type V = OpeningView;

    open spec fn deep_view(&self) -> OpeningView {
        match self {
            Opening::Print(s) => OpeningView::Print(s@),
            Opening::Launch { dir, args } => OpeningView::Launch {
                dir: dir@,
                args: args.deep_view(),
            },
        }
    }
}

/// What opening a workspace comes to.
pub open spec fn opening(
    name: Seq<char>,
    mode: ClaudeMode,
    found: Option<WorkspaceConfigView>,
) -> Result<OpeningView, ErrorView> {
    match (found, launch(mode)) {
        (None, _) => Err(ErrorView::WorkspaceNotFound(name)),
        (Some(w), None) => Ok(OpeningView::Print(w.workspace.path)),
        (Some(w), Some(args)) => Ok(OpeningView::Launch { dir: w.workspace.path, args }),
    }
}

/// What opening a workspace comes to; `found` is what is remembered of it.
pub fn run(name: &str, mode: ClaudeMode, found: Option<WorkspaceConfig>) -> (r: Result<
    Opening,
    Error,
>)
    ensures
        outcome(r) == opening(name@, mode, found.deep_view()),
{
    match WorkspaceConfig::load(name, found) {
        Err(e) => Err(e),
        Ok(w) => match claude_args(mode) {
            None => Ok(Opening::Print(w.workspace.path)),
            Some(args) => Ok(Opening::Launch { dir: w.workspace.path, args }),
        },
    }
}

/// The assistant is launched only where that was asked for, and it is told to skip
/// the questions about permissions only where that was asked for too.
pub proof fn danger_only_asked(open_claude: bool, dangerous: bool)
    ensures
        launch(creation_mode(open_claude, dangerous)) is Some <==> open_claude || dangerous,
        launch(creation_mode(open_claude, dangerous)) is Some ==> (launch(
            creation_mode(open_claude, dangerous),
        )->0.contains("--dangerously-skip-permissions"@) <==> dangerous),
        launch(opening_mode(dangerous)) is Some,
        launch(opening_mode(dangerous))->0.contains("--dangerously-skip-permissions"@) <==> dangerous,
        launch(ClaudeMode::Off) is None,
{
    let f = seq!["--dangerously-skip-permissions"@];
    assert(f[0] == "--dangerously-skip-permissions"@);
    assert(f.contains("--dangerously-skip-permissions"@));
}

/// A workspace that is there is opened in its own directory: the path is printed
/// where the assistant is not asked for, and else it is launched there. One that is
/// not there is an error that names it.
pub proof fn opened_in_its_directory(name: Seq<char>, mode: ClaudeMode, w: WorkspaceConfigView)
    ensures
        opening(name, ClaudeMode::Off, Some(w)) == Ok::<OpeningView, ErrorView>(
            OpeningView::Print(w.workspace.path),
        ),
        mode != ClaudeMode::Off ==> opening(name, mode, Some(w)) is Ok && opening(
            name,
            mode,
            Some(w),
        )->Ok_0 is Launch && opening(name, mode, Some(w))->Ok_0->Launch_dir == w.workspace.path,
        opening(name, mode, None) == Err::<OpeningView, ErrorView>(
            ErrorView::WorkspaceNotFound(name),
        ),
{
}

} // verus!
