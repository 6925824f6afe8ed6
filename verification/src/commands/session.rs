//! What a hook of the assistant reports, and what is noted of it.
use vstd::prelude::*;

use crate::cli::{dashed, event_words, SessionEvent};
use crate::json::{parse_json, parsed_json, Json, JsonView};
use crate::session::{hook_events, SessionState};

verus! {

/// What is done after a report.
#[derive(Debug)]
pub enum SessionUpdate {
    /// Nothing: the report is not understood.
    Ignore,
    /// The record of the session is deleted.
    Remove { session_id: String },
    /// The state of the session is recorded.
    Record { session_id: String, project_dir: String, state: SessionState, pid: Option<i32> },
}

/// What a [`SessionUpdate`] stands for.
pub enum SessionUpdateView {
    Ignore,
    Remove { session_id: Seq<char> },
    Record {
        session_id: Seq<char>,
        project_dir: Seq<char>,
        state: SessionState,
        pid: Option<i32>,
    },
}

impl View for SessionUpdate {
    type V = SessionUpdateView;

    open spec fn view(&self) -> SessionUpdateView {
        match self {
            SessionUpdate::Ignore => SessionUpdateView::Ignore,
            SessionUpdate::Remove { session_id } => SessionUpdateView::Remove {
                session_id: session_id@,
            },
            SessionUpdate::Record { session_id, project_dir, state, pid } => {
                SessionUpdateView::Record {
                    session_id: session_id@,
                    project_dir: project_dir@,
                    state: *state,
                    pid: *pid,
                }
            },
        }
    }
}

/// The string under a key of a report.
pub open spec fn text_field(payload: JsonView, key: Seq<char>) -> Option<Seq<char>> {
    match payload.get(key) {
        Some(v) => v.text(),
        None => None,
    }
}

/// The state that an event leaves a session in, none where the session ends.
pub open spec fn state_after(event: SessionEvent) -> Option<SessionState> {
    match event {
        SessionEvent::PromptSubmit => Some(SessionState::Running),
        SessionEvent::Stop => Some(SessionState::Waiting),
        SessionEvent::Notification => Some(SessionState::Waiting),
        SessionEvent::SessionStart => Some(SessionState::Waiting),
        SessionEvent::SessionEnd => None,
    }
}

/// What is done after a report. The directory is that where the session was
/// launched, where it is known, else the one that the report names.
pub open spec fn update_of(
    event: SessionEvent,
    ppid: Option<i32>,
    payload: JsonView,
    launch_dir: Option<Seq<char>>,
) -> SessionUpdateView {
    match text_field(payload, "session_id"@) {
        None => SessionUpdateView::Ignore,
        Some(session_id) => match state_after(event) {
            None => SessionUpdateView::Remove { session_id },
            Some(state) => match (launch_dir, text_field(payload, "cwd"@)) {
                (Some(project_dir), _) => SessionUpdateView::Record {
                    session_id,
                    project_dir,
                    state,
                    pid: ppid,
                },
                (None, Some(project_dir)) => SessionUpdateView::Record {
                    session_id,
                    project_dir,
                    state,
                    pid: ppid,
                },
                (None, None) => SessionUpdateView::Ignore,
            },
        },
    }
}

fn text_at(payload: &Json, key: &str) -> (r: Option<String>)
    ensures
        r.deep_view() == text_field(payload@, key@),
{
    match payload.get(key) {
        Some(v) => match v.text() {
            Some(s) => Some(s.clone()),
            None => None,
        },
        None => None,
    }
}

/// What is done after a report that could be read.
pub fn react(
    event: SessionEvent,
    ppid: Option<i32>,
    payload: &Json,
    launch_dir: Option<String>,
) -> (r: SessionUpdate)
    ensures
        r@ == update_of(event, ppid, payload@, launch_dir.deep_view()),
{
    let session_id = match text_at(payload, "session_id") {
        Some(s) => s,
        None => {
            return SessionUpdate::Ignore;
        },
    };
    let state = match event {
        SessionEvent::SessionEnd => {
            return SessionUpdate::Remove { session_id };
        },
        SessionEvent::PromptSubmit => SessionState::Running,
        _ => SessionState::Waiting,
    };
    let project_dir = match launch_dir {
        Some(d) => d,
        None => match text_at(payload, "cwd") {
            Some(d) => d,
            None => {
                return SessionUpdate::Ignore;
            },
        },
    };
    SessionUpdate::Record { session_id, project_dir, state, pid: ppid }
}

/// What is done after a report, by the text that came with it. A report that is
/// not understood changes nothing.
pub fn run(
    event: SessionEvent,
    ppid: Option<i32>,
    payload: &str,
    launch_dir: Option<String>,
) -> (r: SessionUpdate)
    ensures
        r@ == (match parsed_json(payload@) {
            Ok(j) => update_of(event, ppid, j, launch_dir.deep_view()),
            Err(_) => SessionUpdateView::Ignore,
        }),
{
    match parse_json(payload) {
        Ok(j) => react(event, ppid, &j, launch_dir),
        Err(_) => SessionUpdate::Ignore,
    }
}

/// Each hook that is set up reports the event that it is the hook of: the word in
/// its command is the one by which the command line knows an event whose name the
/// hook bears. What is done after such a report follows from the hook: the end of
/// a session deletes its record, a prompt of the user leaves it running, and every
/// other hook leaves it waiting.
pub proof fn hooks_report_their_event(
    i: int,
    ppid: Option<i32>,
    payload: JsonView,
    launch_dir: Seq<char>,
)
    requires
        0 <= i < hook_events().len(),
        text_field(payload, "session_id"@) is Some,
    ensures
        exists|e: SessionEvent|
            (#[trigger] e.name()).is_suffix_of(hook_events()[i].0) && hook_events()[i].1 == dashed(
                e.name(),
            ) && update_of(e, ppid, payload, Some(launch_dir)) == (if hook_events()[i].0
                == "SessionEnd"@ {
                SessionUpdateView::Remove { session_id: text_field(payload, "session_id"@)->0 }
            } else {
                SessionUpdateView::Record {
                    session_id: text_field(payload, "session_id"@)->0,
                    project_dir: launch_dir,
                    state: if hook_events()[i].0 == "UserPromptSubmit"@ {
                        SessionState::Running
                    } else {
                        SessionState::Waiting
                    },
                    pid: ppid,
                }
            }),
{
    event_words();
    reveal_strlit("SessionStart");
    reveal_strlit("UserPromptSubmit");
    reveal_strlit("PromptSubmit");
    reveal_strlit("Stop");
    reveal_strlit("Notification");
    reveal_strlit("SessionEnd");
    let hook = hook_events()[i].0;
    let e = if i == 0 {
        SessionEvent::SessionStart
    } else if i == 1 {
        SessionEvent::PromptSubmit
    } else if i == 2 {
        SessionEvent::Stop
    } else if i == 3 {
        SessionEvent::Notification
    } else {
        SessionEvent::SessionEnd
    };
    assert("PromptSubmit"@ =~= "UserPromptSubmit"@.subrange(4, 16));
    assert("SessionStart"@ =~= "SessionStart"@.subrange(0, 12));
    assert("Stop"@ =~= "Stop"@.subrange(0, 4));
    assert("Notification"@ =~= "Notification"@.subrange(0, 12));
    assert("SessionEnd"@ =~= "SessionEnd"@.subrange(0, 10));
    assert("Notification"@[0] != "SessionEnd"@[0]);
    assert(e.name().is_suffix_of(hook));
}

/// Every event has a hook, so that none goes unreported.
pub proof fn every_event_has_a_hook(e: SessionEvent)
    ensures
        exists|i: int|
            0 <= i < hook_events().len() && (#[trigger] hook_events()[i]).1 == dashed(e.name())
                && e.name().is_suffix_of(hook_events()[i].0),
{
    event_words();
    reveal_strlit("UserPromptSubmit");
    reveal_strlit("PromptSubmit");
    let n = e.name();
    assert(n =~= n.subrange(0, n.len() as int));
    assert("PromptSubmit"@ =~= "UserPromptSubmit"@.subrange(4, 16));
    let i: int = match e {
        SessionEvent::SessionStart => 0,
        SessionEvent::PromptSubmit => 1,
        SessionEvent::Stop => 2,
        SessionEvent::Notification => 3,
        SessionEvent::SessionEnd => 4,
    };
    assert(hook_events()[i].1 == dashed(n));
}

/// A report without the id of a session changes nothing, nor does one that does
/// not end the session and comes from no known directory. The directory where the
/// session was launched is taken before the one that the report names, which may
/// have changed since. Only the end of a session deletes its record, wherever that
/// comes from, and what is noted is noted for the session that reports.
pub proof fn reports_are_noted(
    event: SessionEvent,
    ppid: Option<i32>,
    payload: JsonView,
    launch_dir: Option<Seq<char>>,
)
    ensures
        ({
            let id = text_field(payload, "session_id"@);
            let cwd = text_field(payload, "cwd"@);
            let u = update_of(event, ppid, payload, launch_dir);
            &&& id is None ==> u is Ignore
            &&& id is Some && event == SessionEvent::SessionEnd ==> u == (
            SessionUpdateView::Remove { session_id: id->0 })
            &&& u is Remove ==> event == SessionEvent::SessionEnd
            &&& id is Some && event != SessionEvent::SessionEnd ==> (u is Ignore <==> launch_dir
                is None && cwd is None)
            &&& u is Record ==> id == Some(u->Record_session_id) && u->Record_pid == ppid
                && Some(u->Record_project_dir) == (if launch_dir is Some {
                launch_dir
            } else {
                cwd
            })
            &&& u is Record ==> (u->Record_state == SessionState::Running <==> event
                == SessionEvent::PromptSubmit)
        }),
{
}

} // verus!
