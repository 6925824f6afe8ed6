//! Creating a workspace by describing it: a headless session of the assistant names it
//! and picks its base.
use vstd::prelude::*;

use crate::assistant::Assistant;
use crate::commands::create::{repo_list, repo_names};
use crate::config::{BaseView, Config, ConfigView};
use crate::error::{outcome, Error, ErrorView};
use crate::paths::{file_name, file_name_of};
use crate::table::sorted_law;
use crate::text::{
    among, ascending, cat, cat3, chars_of, joined, occurs, occurs_at, own, own_all, same, sorted_of,
    sorted_set, trim, trimmed,
};

verus! {

/// The prompt, without whitespace around it, where there is one.
pub fn check_prompt(prompt: &str) -> (r: Result<String, Error>)
    ensures
        outcome(r) == (if trimmed(prompt@).len() == 0 {
            Err(ErrorView::InvalidWorkspaceName("no prompt provided"@))
        } else {
            Ok(trimmed(prompt@))
        }),
{
    let t = trim(prompt);
    let cs = chars_of(t.as_str());
    if cs.len() == 0 {
        Err(Error::InvalidWorkspaceName(own("no prompt provided")))
    } else {
        Ok(t)
    }
}

/// Whether a session can be started: with the prompt, without whitespace around
/// it, or what is wrong.
pub fn check(prompt: &str, config: &Config) -> (r: Result<String, Error>)
    ensures
        outcome(r) == (if trimmed(prompt@).len() == 0 {
            Err(ErrorView::InvalidWorkspaceName("no prompt provided"@))
        } else if config@.bases.len() == 0 {
            Err(ErrorView::Git("No bases configured. Add one with `cutter base add` first."@))
        } else {
            Ok(trimmed(prompt@))
        }),
{
    match check_prompt(prompt) {
        Err(e) => Err(e),
        Ok(t) => if config.bases.len() == 0 {
            Err(Error::Git(own("No bases configured. Add one with `cutter base add` first.")))
        } else {
            Ok(t)
        },
    }
}

/// This program, for the assistant to run: itself where it is the command line, else the
/// one that was found.
pub fn resolve_cutter(current_exe: Option<String>, found: Option<String>) -> (r: Result<
    String,
    Error,
>)
    ensures
        outcome(r) == (match current_exe.deep_view() {
            Some(exe) => if file_name_of(exe) == Some("cutter"@) {
                Ok(exe)
            } else {
                found_cutter(found.deep_view())
            },
            None => found_cutter(found.deep_view()),
        }),
{
    if let Some(exe) = current_exe {
        if let Some(name) = file_name(exe.as_str()) {
            if same(name.as_str(), "cutter") {
                return Ok(exe);
            }
        }
    }
    match found {
        Some(p) => Ok(p),
        None => Err(Error::Git(own(NO_CUTTER))),
    }
}

/// What is said where this program is not found.
pub const NO_CUTTER: &'static str =
    "Could not find the `cutter` CLI. Install it with `cargo install --path .` so the AI session can create the workspace.";

/// The program that was found.
pub open spec fn found_cutter(found: Option<Seq<char>>) -> Result<Seq<char>, ErrorView> {
    match found {
        Some(p) => Ok(p),
        None => Err(ErrorView::Git(NO_CUTTER@)),
    }
}

/// The arguments of a session: tools to look around with, and `cutter` and `git`.
pub fn session_args() -> (r: Vec<String>)
    ensures
        r.deep_view() == seq![
            "-p"@,
            "--allowedTools"@,
            "Bash(cutter:*),Bash(git:*),Read,Grep,Glob,WebFetch,WebSearch"@,
        ],
{
    let v = vec![
        "-p",
        "--allowedTools",
        "Bash(cutter:*),Bash(git:*),Read,Grep,Glob,WebFetch,WebSearch",
    ];
    assert(v.deep_view() =~= seq![
        "-p"@,
        "--allowedTools"@,
        "Bash(cutter:*),Bash(git:*),Read,Grep,Glob,WebFetch,WebSearch"@,
    ]);
    own_all(&v)
}

/// What the assistant is told before the bases and the request.
pub const INSTRUCTIONS: &'static str =
    "You are helping set up a new \"cutter\" workspace on the user's machine. \
     Cutter is a git-worktree manager: `cutter create <name> --base <base>` \
     creates a workspace by adding a git worktree for every repo in <base>, all \
     on a new branch named <name>.\n\n\
     The user's request is at the very end of this message. Do the following:\n\n\
     1. Do any research the request implies using your read-only tools (read \
     files, fetch a URL, inspect repos with git log/status). Do NOT commit, \
     push, or otherwise modify any repository.\n\
     2. Choose a short, descriptive workspace name: kebab-case, ASCII lowercase \
     letters/digits/hyphens only, NO spaces, ideally 2-4 words. If the request \
     references a ticket id (e.g. a Linear ticket like ENG-1234), start the name \
     with the lowercased id, e.g. `eng-1234-sso-redirect`.\n\
     3. Pick exactly one base from the list below that best fits the request.\n\
     4. Create the workspace by running EXACTLY this command (bare `cutter`, no \
     path, no extra flags):\n\n\
     \x20      cutter create <name> --base <base>\n\n\
     \x20  If it fails because the name already exists, pick a slightly different \
     name and retry. Do not run any other `cutter` subcommand that changes state \
     (no `cutter remove`).\n\
     5. After it succeeds, state in one line the workspace name you created and \
     why you chose that base.\n\n";

/// The line for a base.
pub open spec fn base_line(b: (Seq<char>, BaseView)) -> Seq<char> {
    "- "@ + b.0 + " (repos: "@ + joined(repo_names(b.1), ", "@) + ")\n"@
}

/// The lines for the bases.
pub open spec fn base_lines(bases: Seq<(Seq<char>, BaseView)>) -> Seq<char>
    decreases bases.len(),
{
    if bases.len() == 0 {
        Seq::empty()
    } else {
        base_lines(bases.drop_last()) + base_line(bases.last())
    }
}

/// The line for the base that the user picked.
pub open spec fn hint_line(hint: Option<Seq<char>>) -> Seq<char> {
    match hint {
        Some(h) => "\nThe user pre-selected the base `"@ + h
            + "`. Use exactly that base and only choose the name.\n"@,
        None => Seq::empty(),
    }
}

/// What the assistant is told: the instructions, the bases, the base that the user
/// picked, and the request.
pub open spec fn prompt_of(
    request: Seq<char>,
    config: ConfigView,
    hint: Option<Seq<char>>,
) -> Seq<char> {
    INSTRUCTIONS@ + "Available bases:\n"@ + base_lines(config.bases) + hint_line(hint)
        + "\nUser request:\n"@ + request
}

/// What the assistant is told.
pub fn build_prompt(user_prompt: &str, config: &Config, base_hint: Option<&str>) -> (r: String)
    ensures
        r@ == prompt_of(
            user_prompt@,
            config@,
            match base_hint {
                Some(h) => Some(h@),
                None => None,
            },
        ),
{
    let ghost v = config@.bases;
    let mut list = String::new();
    assert(list@ =~= base_lines(v.take(0)));
    for i in 0..config.bases.len()
        invariant
            v == config@.bases,
            list@ == base_lines(v.take(i as int)),
    {
        proof {
            assert(v.take(i + 1).drop_last() =~= v.take(i as int));
            assert(v.take(i + 1).last() == (
                config.bases@[i as int].0@,
                config.bases@[i as int].1.deep_view(),
            ));
        }
        let repos = repo_list(&config.bases[i].1);
        let head = cat3("- ", config.bases[i].0.as_str(), " (repos: ");
        let line = cat3(head.as_str(), repos.as_str(), ")\n");
        assert(line@ =~= base_line(v[i as int]));
        list = cat(list.as_str(), line.as_str());
    }
    assert(v.take(v.len() as int) =~= v);
    let mut s = cat3(INSTRUCTIONS, "Available bases:\n", list.as_str());
    let hint = match base_hint {
        Some(h) => cat3(
            "\nThe user pre-selected the base `",
            h,
            "`. Use exactly that base and only choose the name.\n",
        ),
        None => own(""),
    };
    proof {
        reveal_strlit("");
        assert(""@ =~= Seq::<char>::empty());
    }
    s = cat3(s.as_str(), hint.as_str(), "\nUser request:\n");
    cat(s.as_str(), user_prompt)
}

/// The workspaces that are there now and were not before, in order.
pub open spec fn new_names(before: Seq<Seq<char>>, after: Seq<Seq<char>>) -> Seq<Seq<char>> {
    sorted_of(after.filter(|n: Seq<char>| !before.contains(n)))
}

/// What a session comes to: the workspaces that it has created, whether it succeeded
/// or not, and else what went wrong.
pub open spec fn came_of(
    title: Seq<char>,
    before: Seq<Seq<char>>,
    after: Seq<Seq<char>>,
    success: bool,
) -> Result<Seq<Seq<char>>, ErrorView> {
    if new_names(before, after).len() > 0 {
        Ok(new_names(before, after))
    } else if success {
        Err(ErrorView::Git(title + " finished but no new workspace was created."@))
    } else {
        Err(ErrorView::Git(title + " session ended without creating a workspace."@))
    }
}

/// What a session came to: the workspaces that it created, at least one, in
/// order; the first is the one that was asked for. `before` and `after` are the
/// names of the workspaces, and `success` is how the session ended.
pub fn run(who: &Assistant, before: &Vec<String>, after: &Vec<String>, success: bool) -> (r: Result<
    Vec<String>,
    Error,
>)
    ensures
        outcome(r) == came_of(who@.title, before.deep_view(), after.deep_view(), success),
{
    let ghost b = before.deep_view();
    let ghost a = after.deep_view();
    let ghost p = |n: Seq<char>| !b.contains(n);
    let mut list: Vec<String> = Vec::new();
    proof {
        reveal(Seq::filter);
        assert(list.deep_view() =~= a.take(0).filter(p));
    }
    for i in 0..after.len()
        invariant
            a == after.deep_view(),
            b == before.deep_view(),
            p == (|n: Seq<char>| !b.contains(n)),
            list.deep_view() == a.take(i as int).filter(p),
    {
        let ghost g = list.deep_view();
        let name = after[i].as_str();
        proof {
            reveal(Seq::filter);
            assert(a.take(i + 1).drop_last() =~= a.take(i as int));
            assert(a.take(i + 1).last() == name@);
        }
        if !among(before, name) {
            list.push(own(name));
            assert(list.deep_view() =~= g.push(name@));
        }
    }
    assert(a.take(a.len() as int) =~= a);
    let created = sorted_set(&list);
    if created.len() > 0 {
        Ok(created)
    } else if success {
        Err(Error::Git(cat(who.title.as_str(), " finished but no new workspace was created.")))
    } else {
        Err(Error::Git(cat(who.title.as_str(), " session ended without creating a workspace.")))
    }
}

/// The prompt ends with the user's request as it is, names every base with its repos,
/// and the base that the user has chosen, where there is one.
pub proof fn prompt_tells_all(
    request: Seq<char>,
    config: ConfigView,
    hint: Option<Seq<char>>,
    i: int,
)
    ensures
        request.is_suffix_of(prompt_of(request, config, hint)),
        INSTRUCTIONS@.is_prefix_of(prompt_of(request, config, hint)),
        0 <= i < config.bases.len() ==> occurs(
            prompt_of(request, config, hint),
            "- "@ + config.bases[i].0 + " (repos: "@ + joined(
                repo_names(config.bases[i].1),
                ", "@,
            ) + ")\n"@,
        ),
        hint is Some ==> occurs(prompt_of(request, config, hint), "base `"@ + hint->0 + "`"@),
{
    let p = prompt_of(request, config, hint);
    let a = INSTRUCTIONS@ + "Available bases:\n"@;
    let l = base_lines(config.bases);
    let h = hint_line(hint);
    let u = "\nUser request:\n"@;
    assert(request =~= p.subrange(p.len() - request.len(), p.len() as int));
    assert(INSTRUCTIONS@ =~= p.take(INSTRUCTIONS@.len() as int));
    if 0 <= i < config.bases.len() {
        lemma_base_listed(config.bases, i);
        let x = base_line(config.bases[i]);
        let k = choose|k: int| occurs_at(l, x, k);
        let at = a.len() + k;
        assert(p =~= a + l + (h + u + request));
        assert(p.subrange(at, at + x.len()) =~= l.subrange(k, k + x.len()));
        assert(occurs_at(p, x, at));
    }
    if hint is Some {
        reveal_strlit("\nThe user pre-selected the base `");
        reveal_strlit("`. Use exactly that base and only choose the name.\n");
        reveal_strlit("base `");
        reveal_strlit("`");
        let x = "base `"@ + hint->0 + "`"@;
        let at: int = a.len() + l.len() + 27int;
        assert(p.subrange(at, at + x.len()) =~= x);
        assert(occurs_at(p, x, at));
    }
}

proof fn lemma_base_listed(bases: Seq<(Seq<char>, BaseView)>, i: int)
    requires
        0 <= i < bases.len(),
    ensures
        occurs(base_lines(bases), base_line(bases[i])),
    decreases bases.len(),
{
    let t = bases.drop_last();
    let rest = base_lines(t);
    let all = base_lines(bases);
    let x = base_line(bases[i]);
    if i < t.len() {
        assert(t[i] == bases[i]);
        lemma_base_listed(t, i);
        let k = choose|k: int| occurs_at(rest, x, k);
        assert(all.subrange(k, k + x.len()) =~= rest.subrange(k, k + x.len()));
        assert(occurs_at(all, x, k));
    } else {
        let k = rest.len() as int;
        assert(all.subrange(k, k + x.len()) =~= x);
        assert(occurs_at(all, x, k));
    }
}

/// The workspaces that a session has created are those that were not there before,
/// each once, in ascending order.
pub proof fn created_names(before: Seq<Seq<char>>, after: Seq<Seq<char>>, x: Seq<char>)
    ensures
        new_names(before, after).contains(x) <==> after.contains(x) && !before.contains(x),
        ascending(new_names(before, after)),
{
    let p = |n: Seq<char>| !before.contains(n);
    sorted_law(after.filter(p));
    lemma_kept(after, p, x);
}

proof fn lemma_kept(list: Seq<Seq<char>>, p: spec_fn(Seq<char>) -> bool, x: Seq<char>)
    ensures
        list.filter(p).contains(x) <==> list.contains(x) && p(x),
    decreases list.len(),
{
    reveal(Seq::filter);
    if list.len() > 0 {
        let t = list.drop_last();
        lemma_kept(t, p, x);
        let (f, g) = (list.filter(p), t.filter(p));
        assert(f == if p(list.last()) {
            g.push(list.last())
        } else {
            g
        });
        if g.contains(x) {
            let i = choose|i: int| 0 <= i < g.len() && g[i] == x;
            assert(f[i] == x);
        }
        if t.contains(x) {
            let i = choose|i: int| 0 <= i < t.len() && t[i] == x;
            assert(list[i] == x);
        }
        if list.last() == x {
            assert(list[list.len() - 1] == x);
            if p(x) {
                assert(f[f.len() - 1] == x);
            }
        }
        if list.contains(x) && list.last() != x {
            let i = choose|i: int| 0 <= i < list.len() && list[i] == x;
            assert(t[i] == x);
        }
        if f.contains(x) {
            let i = choose|i: int| 0 <= i < f.len() && f[i] == x;
            if i < g.len() {
                assert(g[i] == x);
            }
        }
    }
}

/// A session has worked exactly where there is a workspace that was not there before,
/// and it gives just those.
pub proof fn worked_if_created(
    title: Seq<char>,
    before: Seq<Seq<char>>,
    after: Seq<Seq<char>>,
    success: bool,
    x: Seq<char>,
)
    ensures
        came_of(title, before, after, success) is Ok <==> exists|n: Seq<char>|
            after.contains(n) && !before.contains(n),
        came_of(title, before, after, success) is Ok ==> (came_of(
            title,
            before,
            after,
            success,
        )->Ok_0.contains(x) <==> after.contains(x) && !before.contains(x)),
{
    let l = new_names(before, after);
    created_names(before, after, x);
    if l.len() > 0 {
        created_names(before, after, l[0]);
        assert(l.contains(l[0]));
    }
    if exists|n: Seq<char>| after.contains(n) && !before.contains(n) {
        let n = choose|n: Seq<char>| after.contains(n) && !before.contains(n);
        created_names(before, after, n);
        assert(l.contains(n));
    }
}

} // verus!
