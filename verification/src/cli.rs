//! What the command line asks for.
use vstd::prelude::*;

use crate::text::{lower, own};

verus! {

/// Whether the assistant is launched in a workspace, and how.
#[derive(Debug, Clone, Copy, PartialEq, Eq, Structural)]
pub enum ClaudeMode {
    Off,
    Normal,
    DangerouslySkipPermissions,
}

/// A moment in the life of an assistant session, as its hooks report it.
#[derive(Debug, Clone, Copy, PartialEq, Eq, Structural)]
pub enum SessionEvent {
    SessionStart,
    PromptSubmit,
    Stop,
    Notification,
    SessionEnd,
}

/// A name in lower case, with a dash before each capital but the first: how the
/// command line spells the name of a value.
pub open spec fn dashed(name: Seq<char>) -> Seq<char>
    decreases name.len(),
{
    if name.len() == 0 {
        Seq::empty()
    } else {
        let rest = dashed(name.drop_last());
        let c = name.last();
        if 'A' <= c && c <= 'Z' && rest.len() > 0 {
            rest.push('-').push(lower(c))
        } else {
            rest.push(lower(c))
        }
    }
}

impl SessionEvent {
    /// Its name.
    pub open spec fn name(self) -> Seq<char> {
        match self {
            SessionEvent::SessionStart => "SessionStart"@,
            SessionEvent::PromptSubmit => "PromptSubmit"@,
            SessionEvent::Stop => "Stop"@,
            SessionEvent::Notification => "Notification"@,
            SessionEvent::SessionEnd => "SessionEnd"@,
        }
    }
}

proof fn lemma_dashed_small(s: Seq<char>, t: Seq<char>)
    requires
        forall|i: int| 0 <= i < t.len() ==> !('A' <= #[trigger] t[i] && t[i] <= 'Z'),
    ensures
        dashed(s + t) == dashed(s) + t,
    decreases t.len(),
{
    if t.len() == 0 {
        assert(s + t =~= s);
        assert(dashed(s) + t =~= dashed(s));
    } else {
        let u = t.drop_last();
        assert forall|i: int| 0 <= i < u.len() implies !('A' <= #[trigger] u[i] && u[i] <= 'Z') by {
            assert(u[i] == t[i]);
        }
        lemma_dashed_small(s, u);
        assert((s + t).drop_last() =~= s + u);
        assert((s + t).last() == t[t.len() - 1]);
        assert(dashed(s + t) =~= dashed(s) + t);
    }
}

proof fn lemma_dashed_two(a: char, s: Seq<char>, b: char, t: Seq<char>)
    requires
        'A' <= a && a <= 'Z',
        'A' <= b && b <= 'Z',
        forall|i: int| 0 <= i < s.len() ==> !('A' <= #[trigger] s[i] && s[i] <= 'Z'),
        forall|i: int| 0 <= i < t.len() ==> !('A' <= #[trigger] t[i] && t[i] <= 'Z'),
    ensures
        dashed(seq![a] + s) == seq![lower(a)] + s,
        dashed(seq![a] + s + seq![b] + t) == seq![lower(a)] + s + seq!['-', lower(b)] + t,
{
    let none: Seq<char> = Seq::empty();
    assert(seq![a].drop_last() =~= none);
    assert(dashed(none) == none);
    assert(dashed(seq![a]) =~= seq![lower(a)]);
    lemma_dashed_small(seq![a], s);
    let x = seq![a] + s;
    let y = x + seq![b];
    assert(y.drop_last() =~= x);
    assert(y.last() == b);
    assert(dashed(y) =~= dashed(x) + seq!['-', lower(b)]);
    lemma_dashed_small(y, t);
}

/// The words by which the command line knows the events.
pub proof fn event_words()
    ensures
        dashed(SessionEvent::SessionStart.name()) == "session-start"@,
        dashed(SessionEvent::PromptSubmit.name()) == "prompt-submit"@,
        dashed(SessionEvent::Stop.name()) == "stop"@,
        dashed(SessionEvent::Notification.name()) == "notification"@,
        dashed(SessionEvent::SessionEnd.name()) == "session-end"@,
{
    reveal_strlit("SessionStart");
    reveal_strlit("PromptSubmit");
    reveal_strlit("Stop");
    reveal_strlit("Notification");
    reveal_strlit("SessionEnd");
    reveal_strlit("session-start");
    reveal_strlit("prompt-submit");
    reveal_strlit("stop");
    reveal_strlit("notification");
    reveal_strlit("session-end");
    let session = seq!['e', 's', 's', 'i', 'o', 'n'];
    let start = seq!['t', 'a', 'r', 't'];
    let prompt = seq!['r', 'o', 'm', 'p', 't'];
    let submit = seq!['u', 'b', 'm', 'i', 't'];
    let stop = seq!['t', 'o', 'p'];
    let notification = seq!['o', 't', 'i', 'f', 'i', 'c', 'a', 't', 'i', 'o', 'n'];
    let end = seq!['n', 'd'];
    assert(lower('S') == 's' && lower('P') == 'p' && lower('N') == 'n' && lower('E') == 'e');
    lemma_dashed_two('S', session, 'S', start);
    assert("SessionStart"@ =~= seq!['S'] + session + seq!['S'] + start);
    assert("session-start"@ =~= seq!['s'] + session + seq!['-', 's'] + start);
    lemma_dashed_two('P', prompt, 'S', submit);
    assert("PromptSubmit"@ =~= seq!['P'] + prompt + seq!['S'] + submit);
    assert("prompt-submit"@ =~= seq!['p'] + prompt + seq!['-', 's'] + submit);
    lemma_dashed_two('S', stop, 'S', stop);
    assert("Stop"@ =~= seq!['S'] + stop);
    assert("stop"@ =~= seq!['s'] + stop);
    lemma_dashed_two('N', notification, 'S', stop);
    assert("Notification"@ =~= seq!['N'] + notification);
    assert("notification"@ =~= seq!['n'] + notification);
    lemma_dashed_two('S', session, 'E', end);
    assert("SessionEnd"@ =~= seq!['S'] + session + seq!['E'] + end);
    assert("session-end"@ =~= seq!['s'] + session + seq!['-', 'e'] + end);
}

#[derive(Debug)]
pub struct Cli {
    pub command: Command,
}

#[allow(inconsistent_fields)]
#[derive(Debug)]
pub enum Command {
    /// Manage bases.
    Base { command: BaseCommand },
    /// Create a workspace from a base.
    Create {
        name: Option<String>,
        base: Option<String>,
        print: bool,
        open_claude: bool,
        open_claude_dangerous: bool,
        ai: Option<String>,
    },
    /// List the workspaces.
    List,
    /// Show the state of the repos of a workspace.
    Status { name: Option<String> },
    /// Remove a workspace.
    Remove { name: String, keep_files: bool },
    /// Print the path of a workspace.
    Locate { name: String },
    /// Launch the assistant in a workspace.
    OpenClaude { name: String, dangerous: bool },
    /// Note what happened in an assistant session.
    SessionEvent { event: SessionEvent, ppid: Option<i32> },
}

#[derive(Debug)]
pub enum BaseCommand {
    /// Define a base.
    Add { name: String, paths: Vec<String> },
    /// List the bases.
    List,
    /// Remove a base.
    Remove { name: String },
}

/// What there is to do.
#[allow(inconsistent_fields)]
#[derive(Debug)]
pub enum Request {
    AddBase { name: String, paths: Vec<String> },
    ListBases,
    RemoveBase { name: String },
    CreateByAi { prompt: String, base: Option<String> },
    Create { name: Option<String>, base: Option<String>, print: bool, mode: ClaudeMode },
    List,
    Status { name: String },
    Remove { name: String, keep_files: bool },
    Open { name: String, mode: ClaudeMode },
    Note { event: SessionEvent, ppid: Option<i32> },
}

/// How the assistant is launched after a creation.
pub open spec fn creation_mode(open_claude: bool, open_claude_dangerous: bool) -> ClaudeMode {
    if open_claude_dangerous {
        ClaudeMode::DangerouslySkipPermissions
    } else if open_claude {
        ClaudeMode::Normal
    } else {
        ClaudeMode::Off
    }
}

/// How the assistant is launched in a workspace that is there.
pub open spec fn opening_mode(dangerous: bool) -> ClaudeMode {
    if dangerous {
        ClaudeMode::DangerouslySkipPermissions
    } else {
        ClaudeMode::Normal
    }
}

impl Cli {
    /// What there is to do, or what is wrong with the command. `here` is the
    /// workspace that the current directory lies in, which a command that names
    /// none is about.
    pub fn request(self, here: Option<String>) -> (r: Result<Request, String>)
        ensures
            match (self.command, r) {
                (Command::Base { command: BaseCommand::Add { name, paths } }, Ok(q)) => q
                    == (Request::AddBase { name, paths }),
                (Command::Base { command: BaseCommand::List }, Ok(q)) => q == Request::ListBases,
                (Command::Base { command: BaseCommand::Remove { name } }, Ok(q)) => q
                    == (Request::RemoveBase { name }),
                (
                    Command::Create { name, base, print, open_claude, open_claude_dangerous, ai },
                    Ok(q),
                ) => q == (match ai {
                    Some(prompt) => Request::CreateByAi { prompt, base },
                    None => Request::Create {
                        name,
                        base,
                        print,
                        mode: creation_mode(open_claude, open_claude_dangerous),
                    },
                }),
                (Command::List, Ok(q)) => q == Request::List,
                (Command::Status { name: Some(name) }, Ok(q)) => q == (Request::Status { name }),
                (Command::Status { name: None }, Ok(q)) => here is Some && q == (Request::Status {
                    name: here->0,
                }),
                (Command::Status { name: None }, Err(e)) => here is None && e@
                    == "Please specify a workspace name"@,
                (Command::Remove { name, keep_files }, Ok(q)) => q == (Request::Remove {
                    name,
                    keep_files,
                }),
                (Command::Locate { name }, Ok(q)) => q == (Request::Open {
                    name,
                    mode: ClaudeMode::Off,
                }),
                (Command::OpenClaude { name, dangerous }, Ok(q)) => q == (Request::Open {
                    name,
                    mode: opening_mode(dangerous),
                }),
                (Command::SessionEvent { event, ppid }, Ok(q)) => q == (Request::Note {
                    event,
                    ppid,
                }),
                _ => false,
            },
    {
        match self.command {
            Command::Base { command: BaseCommand::Add { name, paths } } => Ok(
                Request::AddBase { name, paths },
            ),
            Command::Base { command: BaseCommand::List } => Ok(Request::ListBases),
            Command::Base { command: BaseCommand::Remove { name } } => Ok(
                Request::RemoveBase { name },
            ),
            Command::Create { name, base, print, open_claude, open_claude_dangerous, ai } => {
                match ai {
                    Some(prompt) => Ok(Request::CreateByAi { prompt, base }),
                    None => {
                        let mode = if open_claude_dangerous {
                            ClaudeMode::DangerouslySkipPermissions
                        } else if open_claude {
                            ClaudeMode::Normal
                        } else {
                            ClaudeMode::Off
                        };
                        Ok(Request::Create { name, base, print, mode })
                    },
                }
            },
            Command::List => Ok(Request::List),
            Command::Status { name } => match name {
                Some(name) => Ok(Request::Status { name }),
                None => match here {
                    Some(name) => Ok(Request::Status { name }),
                    None => Err(own("Please specify a workspace name")),
                },
            },
            Command::Remove { name, keep_files } => Ok(Request::Remove { name, keep_files }),
            Command::Locate { name } => Ok(Request::Open { name, mode: ClaudeMode::Off }),
            Command::OpenClaude { name, dangerous } => {
                let mode = if dangerous {
                    ClaudeMode::DangerouslySkipPermissions
                } else {
                    ClaudeMode::Normal
                };
                Ok(Request::Open { name, mode })
            },
            Command::SessionEvent { event, ppid } => Ok(Request::Note { event, ppid }),
        }
    }
}

} // verus!
