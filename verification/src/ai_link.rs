//! Linking the open windows that belong to a workspace.
//!
//! A window whose document lies in the workspace belongs to it; others do where
//! the assistant says so. Links that are there stay.
use vstd::prelude::*;

use crate::paths::{is_within, path_starts_with};
use crate::text::{
    cat, cat3, chars_of, decimal, decimal_of, find, lines, lines_of, lowercase, lowered, occurs,
    occurs_at, parse_unsigned, parsed, same, string_between, trim, trimmed, words, words_of,
};
use crate::window_manager::{same_option, same_target, WindowInfo, WindowInfoView};
use crate::workspace::{LinkedWindow, LinkedWindowView};

verus! {

/// What is known of a workspace.
#[derive(Debug)]
pub struct WsContext {
    pub name: String,
    pub path: String,
    /// The directories of its repos: worktrees and sources.
    pub repo_paths: Vec<String>,
}

/// What a [`WsContext`] stands for.
#[verifier::ext_equal]
pub struct WsContextView {
    pub name: Seq<char>,
    pub path: Seq<char>,
    pub repo_paths: Seq<Seq<char>>,
}

impl DeepView for WsContext {
    type V = WsContextView;

    open spec fn deep_view(&self) -> WsContextView {
        WsContextView {
            name: self.name@,
            path: self.path@,
            repo_paths: self.repo_paths.deep_view(),
        }
    }
}

/// The links that a workspace is to have.
#[derive(Debug)]
pub struct Suggestion {
    /// The links that were there, and those that were added.
    pub links: Vec<LinkedWindow>,
    /// Whether the assistant was heard.
    pub claude_ok: bool,
}

/// Whether two links mean the same window.
pub fn same_window(a: &LinkedWindow, b: &LinkedWindow) -> (r: bool)
    ensures
        r == same_target(a.deep_view(), b.deep_view()),
{
    let ids = match (a.window_id, b.window_id) {
        (Some(x), Some(y)) => x == y,
        _ => false,
    };
    ids || (same(a.app_name.as_str(), b.app_name.as_str()) && same(
        a.title.as_str(),
        b.title.as_str(),
    ) && same_option(&a.document_path, &b.document_path))
}

/// Whether a document lies in a workspace, or in a directory of one of its repos.
pub open spec fn lies_in(doc: Seq<char>, ctx: WsContextView) -> bool {
    is_within(doc, ctx.path) || exists|i: int|
        0 <= i < ctx.repo_paths.len() && is_within(doc, #[trigger] ctx.repo_paths[i])
}

/// Whether the document of a window lies in a workspace.
pub open spec fn belongs(w: WindowInfoView, ctx: WsContextView) -> bool {
    match w.document_path {
        Some(doc) => lies_in(doc, ctx),
        None => false,
    }
}

/// Whether the document of a window lies in a workspace, or in a directory of one
/// of its repos.
pub fn doc_in_workspace(w: &WindowInfo, ctx: &WsContext) -> (r: bool)
    ensures
        r == belongs(w.deep_view(), ctx.deep_view()),
{
    let doc = match &w.document_path {
        Some(d) => d.as_str(),
        None => {
            return false;
        },
    };
    if path_starts_with(doc, ctx.path.as_str()) {
        return true;
    }
    let ghost v = ctx.deep_view().repo_paths;
    for i in 0..ctx.repo_paths.len()
        invariant
            v == ctx.deep_view().repo_paths,
            w.deep_view().document_path == Some(doc@),
            !is_within(doc@, ctx.deep_view().path),
            forall|j: int| 0 <= j < i ==> !is_within(doc@, #[trigger] v[j]),
    {
        assert(v[i as int] == ctx.repo_paths@[i as int]@);
        if path_starts_with(doc, ctx.repo_paths[i].as_str()) {
            return true;
        }
    }
    false
}

// ---------------------------------------------------------------------------
// What the assistant answers
// ---------------------------------------------------------------------------

/// Whether `p` occurs in `s` at `i`, and nowhere before.
pub open spec fn first_at(s: Seq<char>, p: Seq<char>, i: int) -> bool {
    occurs_at(s, p, i) && forall|j: int| 0 <= j < i ==> !occurs_at(s, p, j)
}

/// What a line says behind the word that marks the answer, in any case.
pub open spec fn marked(line: Seq<char>) -> Seq<char> {
    let i = choose|i: int| first_at(lowered(line), "link:"@, i);
    line.skip(i + "link:"@.len())
}

/// The indices below `n` among some words, each once, in order.
pub open spec fn indices(words: Seq<Seq<char>>, n: nat) -> Seq<usize>
    decreases words.len(),
{
    if words.len() == 0 {
        Seq::empty()
    } else {
        let rest = indices(words.drop_last(), n);
        match parsed(words.last(), usize::MAX as nat) {
            Some(i) => if i < n && !rest.contains(i as usize) {
                rest.push(i as usize)
            } else {
                rest
            },
            None => rest,
        }
    }
}

/// The indices on the first of the lines that has the word that marks the
/// answer, none where no line has it.
pub open spec fn picked(lines: Seq<Seq<char>>, n: nat) -> Seq<usize>
    decreases lines.len(),
{
    if lines.len() == 0 {
        Seq::empty()
    } else if occurs(lowered(lines[0]), "link:"@) {
        indices(words_of(marked(lines[0]), true), n)
    } else {
        picked(lines.skip(1), n)
    }
}

/// The indices below `n` among some words, each once, in order.
fn collect_indices(list: &Vec<String>, n: usize) -> (r: Vec<usize>)
    ensures
        r@ == indices(list.deep_view(), n as nat),
{
    let ghost v = list.deep_view();
    let mut picks: Vec<usize> = Vec::new();
    assert(picks@ =~= indices(v.take(0), n as nat));
    for i in 0..list.len()
        invariant
            v == list.deep_view(),
            picks@ == indices(v.take(i as int), n as nat),
    {
        proof {
            assert(v.take(i + 1).drop_last() =~= v.take(i as int));
            assert(v.take(i + 1).last() == list@[i as int]@);
        }
        if let Some(value) = parse_unsigned(list[i].as_str(), usize::MAX as u64) {
            let index: usize = value as usize;
            if index < n {
                let mut seen = false;
                for k in 0..picks.len()
                    invariant
                        seen == (exists|j: int| 0 <= j < k && #[trigger] picks@[j] == index),
                {
                    if picks[k] == index {
                        seen = true;
                    }
                }
                assert(seen == picks@.contains(index));
                if !seen {
                    picks.push(index);
                }
            }
        }
    }
    assert(v.take(v.len() as int) =~= v);
    picks
}

/// No index is picked twice, and each is below `n`.
pub proof fn picks_law(lines: Seq<Seq<char>>, n: nat)
    ensures
        picked(lines, n).no_duplicates(),
        forall|i: int| 0 <= i < picked(lines, n).len() ==> (#[trigger] picked(lines, n)[i]) < n,
    decreases lines.len(),
{
    if lines.len() > 0 {
        if occurs(lowered(lines[0]), "link:"@) {
            lemma_indices(words_of(marked(lines[0]), true), n);
        } else {
            picks_law(lines.skip(1), n);
        }
    }
}

proof fn lemma_indices(words: Seq<Seq<char>>, n: nat)
    ensures
        indices(words, n).no_duplicates(),
        forall|i: int| 0 <= i < indices(words, n).len() ==> (#[trigger] indices(words, n)[i]) < n,
    decreases words.len(),
{
    if words.len() > 0 {
        lemma_indices(words.drop_last(), n);
    }
}

/// The indices below `n` that the assistant's answer picks: those on the first
/// line that is marked as the answer, each once, in order.
pub fn parse_picks(output: &str, n: usize) -> (r: Vec<usize>)
    ensures
        r@ == picked(lines_of(output@), n as nat),
{
    let list = lines(output);
    let ghost v = list.deep_view();
    let mark = chars_of("link:");
    assert(v.skip(0) =~= v);
    for i in 0..list.len()
        invariant
            v == list.deep_view(),
            mark@ == "link:"@,
            v == lines_of(output@),
            picked(v, n as nat) == picked(v.skip(i as int), n as nat),
    {
        let line = chars_of(list[i].as_str());
        let lower = lowercase(&line);
        proof {
            assert(v.skip(i as int)[0] == list@[i as int]@);
            assert(v.skip(i as int).skip(1) =~= v.skip(i + 1));
        }
        if let Some(pos) = find(&lower, &mark) {
            proof {
                let p = "link:"@;
                assert(first_at(lower@, p, pos as int));
                let q = choose|q: int| first_at(lower@, p, q);
                assert(first_at(lower@, p, q));
                if q < pos {
                    assert(!occurs_at(lower@, p, q));
                } else if pos < q {
                    assert(!occurs_at(lower@, p, pos as int));
                }
                assert(lower@.len() == line@.len());
            }
            let end = line.len();
            assert(pos + mark@.len() <= end);
            let from = pos + mark.len();
            let rest = string_between(&line, from, end);
            assert(rest@ =~= marked(list@[i as int]@));
            let tokens = words(rest.as_str(), true);
            return collect_indices(&tokens, n);
        }
    }
    Vec::new()
}

/// An index is picked exactly where a word spells it, and there is such a window.
pub proof fn picked_words(words: Seq<Seq<char>>, n: nat, x: usize)
    ensures
        indices(words, n).contains(x) <==> x < n && exists|i: int|
            0 <= i < words.len() && parsed(#[trigger] words[i], usize::MAX as nat) == Some(x as nat),
    decreases words.len(),
{
    if words.len() > 0 {
        let t = words.drop_last();
        picked_words(t, n, x);
        let rest = indices(t, n);
        let all = indices(words, n);
        if rest.contains(x) {
            let k = choose|k: int| 0 <= k < rest.len() && rest[k] == x;
            assert(all[k] == x);
            let i = choose|i: int|
                0 <= i < t.len() && parsed(#[trigger] t[i], usize::MAX as nat) == Some(x as nat);
            assert(words[i] == t[i]);
        }
        if all.contains(x) && !rest.contains(x) {
            let k = choose|k: int| 0 <= k < all.len() && all[k] == x;
            if k < rest.len() {
                assert(rest[k] == x);
            }
            assert(parsed(words[words.len() - 1], usize::MAX as nat) == Some(x as nat));
        }
        if x < n && exists|i: int|
            0 <= i < words.len() && parsed(#[trigger] words[i], usize::MAX as nat) == Some(x as nat) {
            let i = choose|i: int|
                0 <= i < words.len() && parsed(#[trigger] words[i], usize::MAX as nat) == Some(
                    x as nat,
                );
            if i < t.len() {
                assert(t[i] == words[i]);
            } else if !rest.contains(x) {
                assert(all[all.len() - 1] == x);
            }
        }
    }
}

/// The first line that is marked as the answer gives the picks, by what stands
/// behind its first mark; lines before it give none, and neither do those after it.
pub proof fn first_mark_answers(lines: Seq<Seq<char>>, n: nat, k: int, at: int)
    requires
        0 <= k < lines.len(),
        forall|i: int| 0 <= i < k ==> !occurs(lowered(#[trigger] lines[i]), "link:"@),
        occurs_at(lowered(lines[k]), "link:"@, at),
        forall|j: int| 0 <= j < at ==> !occurs_at(lowered(lines[k]), "link:"@, j),
    ensures
        picked(lines, n) == indices(words_of(lines[k].skip(at + 5), true), n),
    decreases k,
{
    reveal_strlit("link:");
    if k > 0 {
        assert(!occurs(lowered(lines[0]), "link:"@));
        let t = lines.skip(1);
        assert(t[k - 1] == lines[k]);
        assert forall|i: int| 0 <= i < k - 1 implies !occurs(lowered(#[trigger] t[i]), "link:"@) by {
            assert(t[i] == lines[i + 1]);
        }
        first_mark_answers(t, n, k - 1, at);
    } else {
        let s = lowered(lines[0]);
        let p = "link:"@;
        assert(first_at(s, p, at));
        let q = choose|q: int| first_at(s, p, q);
        assert(first_at(s, p, q));
        if q < at {
            assert(!occurs_at(s, p, q));
        } else if at < q {
            assert(!occurs_at(s, p, at));
        }
    }
}

/// An answer without a mark picks nothing.
pub proof fn no_mark_no_picks(lines: Seq<Seq<char>>, n: nat)
    requires
        forall|i: int| 0 <= i < lines.len() ==> !occurs(lowered(#[trigger] lines[i]), "link:"@),
    ensures
        picked(lines, n).len() == 0,
    decreases lines.len(),
{
    if lines.len() > 0 {
        assert(!occurs(lowered(lines[0]), "link:"@));
        let t = lines.skip(1);
        assert forall|i: int| 0 <= i < t.len() implies !occurs(lowered(#[trigger] t[i]), "link:"@) by {
            assert(t[i] == lines[i + 1]);
        }
        no_mark_no_picks(t, n);
    }
}

/// A window belongs to a workspace exactly where it has a document open that lies in
/// the workspace's directory or in that of one of its repos.
pub proof fn belongs_by_document(w: WindowInfoView, ctx: WsContextView)
    ensures
        w.document_path is None ==> !belongs(w, ctx),
        w.document_path is Some ==> (belongs(w, ctx) <==> is_within(w.document_path->0, ctx.path)
            || exists|i: int|
            0 <= i < ctx.repo_paths.len() && is_within(
                w.document_path->0,
                #[trigger] ctx.repo_paths[i],
            )),
{
}

// ---------------------------------------------------------------------------
// What is linked
// ---------------------------------------------------------------------------

/// Whether the window at `i` is to be linked.
pub open spec fn is_selected(
    windows: Seq<WindowInfoView>,
    ctx: WsContextView,
    picks: Seq<usize>,
    i: int,
) -> bool {
    belongs(windows[i], ctx) || picks.contains(i as usize)
}

/// Whether a link means the same window as one of the list.
pub open spec fn is_linked(links: Seq<LinkedWindowView>, link: LinkedWindowView) -> bool {
    exists|i: int| 0 <= i < links.len() && same_target(#[trigger] links[i], link)
}

/// The links after the first `k` windows: each that is to be linked, and is not
/// linked yet, is added.
pub open spec fn linked(
    windows: Seq<WindowInfoView>,
    ctx: WsContextView,
    picks: Seq<usize>,
    existing: Seq<LinkedWindowView>,
    k: nat,
) -> Seq<LinkedWindowView>
    decreases k,
{
    if k == 0 {
        existing
    } else {
        let rest = linked(windows, ctx, picks, existing, (k - 1) as nat);
        let link = windows[k - 1].link();
        if is_selected(windows, ctx, picks, k - 1) && !is_linked(rest, link) {
            rest.push(link)
        } else {
            rest
        }
    }
}

/// What the assistant picked, nothing where it was not heard.
pub open spec fn picks_of(answer: Option<Seq<char>>, n: nat) -> Seq<usize> {
    match answer {
        Some(a) => picked(lines_of(a), n),
        None => Seq::empty(),
    }
}

/// A copy of a list of links.
pub fn copy_links(list: &Vec<LinkedWindow>) -> (r: Vec<LinkedWindow>)
    ensures
        r.deep_view() == list.deep_view(),
{
    let mut out: Vec<LinkedWindow> = Vec::new();
    for i in 0..list.len()
        invariant
            out@.len() == i,
            forall|j: int| 0 <= j < i ==> (#[trigger] out@[j]).deep_view() == list@[j].deep_view(),
    {
        out.push(list[i].clone());
    }
    assert(out.deep_view() =~= list.deep_view());
    out
}

fn picked_index(picks: &Vec<usize>, i: usize) -> (r: bool)
    ensures
        r == picks@.contains(i),
{
    for k in 0..picks.len()
        invariant
            forall|j: int| 0 <= j < k ==> #[trigger] picks@[j] != i,
    {
        if picks[k] == i {
            return true;
        }
    }
    false
}

/// The links that a workspace is to have: those that it has, and the windows
/// that belong to it or that the assistant picked. `answer` is what the assistant said, where
/// it was heard.
pub fn suggest(
    ctx: &WsContext,
    windows: &Vec<WindowInfo>,
    existing: &Vec<LinkedWindow>,
    answer: Option<&str>,
) -> (r: Suggestion)
    ensures
        r.claude_ok == (answer is Some),
        r.links.deep_view() == linked(
            windows.deep_view(),
            ctx.deep_view(),
            picks_of(
                match answer {
                    Some(a) => Some(a@),
                    None => None,
                },
                windows@.len(),
            ),
            existing.deep_view(),
            windows@.len(),
        ),
{
    let (picks, claude_ok) = match answer {
        Some(a) => (parse_picks(a, windows.len()), true),
        None => (Vec::new(), false),
    };
    let ghost p = picks@;
    let ghost v = windows.deep_view();
    let ghost c = ctx.deep_view();
    let ghost e = existing.deep_view();
    assert(p =~= picks_of(
        match answer {
            Some(a) => Some(a@),
            None => None,
        },
        windows@.len(),
    ));
    let mut links = copy_links(existing);
    for i in 0..windows.len()
        invariant
            p == picks@,
            v == windows.deep_view(),
            c == ctx.deep_view(),
            links.deep_view() == linked(v, c, p, e, i as nat),
    {
        let w = &windows[i];
        assert(v[i as int] == w.deep_view());
        let ghost before = links.deep_view();
        if doc_in_workspace(w, ctx) || picked_index(&picks, i) {
            let link = w.to_link();
            let mut there = false;
            for k in 0..links.len()
                invariant
                    before == links.deep_view(),
                    there == (exists|j: int|
                        0 <= j < k && same_target(#[trigger] before[j], link.deep_view())),
            {
                assert(before[k as int] == links@[k as int].deep_view());
                if same_window(&links[k], &link) {
                    there = true;
                }
            }
            assert(there == is_linked(before, link.deep_view()));
            if !there {
                let ghost x = link.deep_view();
                links.push(link);
                assert(links.deep_view() =~= before.push(x));
            }
        }
    }
    Suggestion { links, claude_ok }
}

/// The links that were there stay, in their order; every window that belongs to
/// the workspace is linked, whether the assistant was heard or not, and every one
/// that it picked; only such windows are added; and no link that is added means
/// the same window as one before it.
pub proof fn suggest_law(
    windows: Seq<WindowInfoView>,
    ctx: WsContextView,
    picks: Seq<usize>,
    existing: Seq<LinkedWindowView>,
    k: nat,
    i: int,
)
    requires
        0 <= i < k <= windows.len(),
    ensures
        existing.is_prefix_of(linked(windows, ctx, picks, existing, k)),
        belongs(windows[i], ctx) ==> is_linked(
            linked(windows, ctx, picks, existing, k),
            windows[i].link(),
        ),
        picks.contains(i as usize) ==> is_linked(
            linked(windows, ctx, picks, existing, k),
            windows[i].link(),
        ),
        forall|a: int, b: int|
            0 <= a < b < linked(windows, ctx, picks, existing, k).len() && existing.len() <= b
                ==> !same_target(
                #[trigger] linked(windows, ctx, picks, existing, k)[a],
                #[trigger] linked(windows, ctx, picks, existing, k)[b],
            ),
        forall|j: int|
            existing.len() <= j < linked(windows, ctx, picks, existing, k).len() ==> exists|m: int|
                0 <= m < k && is_selected(windows, ctx, picks, m) && #[trigger] linked(
                    windows,
                    ctx,
                    picks,
                    existing,
                    k,
                )[j] == #[trigger] windows[m].link(),
    decreases k,
{
    let now = linked(windows, ctx, picks, existing, k);
    let rest = linked(windows, ctx, picks, existing, (k - 1) as nat);
    let link = windows[k - 1].link();
    if k > 1 {
        suggest_law(windows, ctx, picks, existing, (k - 1) as nat, if i < k - 1 { i } else { 0 });
    } else {
        assert(rest == existing);
    }
    assert(rest.is_prefix_of(now));
    assert(existing.is_prefix_of(now)) by {
        assert(existing =~= now.take(existing.len() as int));
    }
    assert forall|l: LinkedWindowView| is_linked(rest, l) implies is_linked(now, l) by {
        let j = choose|j: int| 0 <= j < rest.len() && same_target(#[trigger] rest[j], l);
        assert(now[j] == rest[j]);
    }
    assert forall|a: int, b: int|
        0 <= a < b < now.len() && existing.len() <= b implies !same_target(
        #[trigger] now[a],
        #[trigger] now[b],
    ) by {
        assert(now[a] == rest[a]);
        if b < rest.len() {
            assert(now[b] == rest[b]);
        } else {
            assert(!is_linked(rest, now[b]));
        }
    }
    if i == k - 1 && is_selected(windows, ctx, picks, i) {
        if !is_linked(rest, link) {
            assert(now[rest.len() as int] == link);
            assert(same_target(now[rest.len() as int], link));
        }
    }
    assert forall|j: int| existing.len() <= j < now.len() implies exists|m: int|
        0 <= m < k && is_selected(windows, ctx, picks, m) && #[trigger] now[j]
            == #[trigger] windows[m].link() by {
        if j < rest.len() {
            assert(now[j] == rest[j]);
            let m = choose|m: int|
                0 <= m < k - 1 && is_selected(windows, ctx, picks, m) && #[trigger] rest[j]
                    == #[trigger] windows[m].link();
            assert(now[j] == windows[m].link());
        } else {
            assert(now[j] == windows[k - 1].link());
        }
    }
}

/// With the links that came of it, the same windows and the same answer add
/// nothing.
pub proof fn suggest_again(
    windows: Seq<WindowInfoView>,
    ctx: WsContextView,
    picks: Seq<usize>,
    existing: Seq<LinkedWindowView>,
)
    ensures
        linked(
            windows,
            ctx,
            picks,
            linked(windows, ctx, picks, existing, windows.len()),
            windows.len(),
        ) == linked(windows, ctx, picks, existing, windows.len()),
{
    lemma_adds_nothing(windows, ctx, picks, existing, windows.len());
}

/// The first `k` windows add nothing to the links that came of all of them.
proof fn lemma_adds_nothing(
    windows: Seq<WindowInfoView>,
    ctx: WsContextView,
    picks: Seq<usize>,
    existing: Seq<LinkedWindowView>,
    k: nat,
)
    requires
        k <= windows.len(),
    ensures
        linked(
            windows,
            ctx,
            picks,
            linked(windows, ctx, picks, existing, windows.len()),
            k,
        ) == linked(windows, ctx, picks, existing, windows.len()),
    decreases k,
{
    if k > 0 {
        lemma_adds_nothing(windows, ctx, picks, existing, (k - 1) as nat);
        suggest_law(windows, ctx, picks, existing, windows.len(), k - 1);
    }
}

// ---------------------------------------------------------------------------
// What the assistant is asked
// ---------------------------------------------------------------------------

/// How the question begins.
pub const QUESTION_INTRO: &'static str =
    "You are helping link open macOS windows to a software development workspace. Decide which of the listed windows belong to this workspace.\n\n";

/// How the question ends.
pub const QUESTION_GUIDANCE: &'static str =
    "\nGuidance:\n\
     - A window whose open file is inside the workspace or a repo directory definitely belongs.\n\
     - A title mentioning the workspace name, its ticket id (e.g. ENG-1234), or its clear topic \
     likely belongs (e.g. a browser tab or design doc about the same feature).\n\
     - Generic or unrelated windows (chat apps, music, mail, unrelated projects) do NOT belong \
     unless the title clearly references this work.\n\
     - When unsure, leave it out.\n\n\
     Respond with ONLY one line: the indices of the windows that belong, comma-separated, \
     prefixed with 'LINK:'. Example: 'LINK: 0, 3, 5'. If none belong, respond with 'LINK:' \
     and nothing after it.\n";

/// A text in quotes, as the debug format of `str` writes it.
pub uninterp spec fn quoted(s: Seq<char>) -> Seq<char>;

/// `format!` with `{:?}` of a `str`. Claims no more than that the result is a
/// function of the text.
#[verifier::external_body]
fn debug_quote(s: &str) -> (r: String)
    ensures
        r@ == quoted(s@),
{
    format!("{:?}", s)
}

/// The title of a window as it is shown.
pub open spec fn shown_title(title: Seq<char>) -> Seq<char> {
    if trimmed(title).len() == 0 {
        "(untitled)"@
    } else {
        trimmed(title)
    }
}

/// The line of the question for the window at `i`, its parts in quotes.
pub open spec fn line_of(
    i: nat,
    app: Seq<char>,
    title: Seq<char>,
    file: Option<Seq<char>>,
) -> Seq<char> {
    let head = "["@ + decimal_of(i) + "] app="@ + app + " title="@ + title;
    match file {
        Some(f) => head + " file="@ + f + "\n"@,
        None => head + "\n"@,
    }
}

/// The line of the question for the window at `i`. `quote` puts a text in quotes.
pub open spec fn window_line(
    i: nat,
    w: WindowInfoView,
    quote: spec_fn(Seq<char>) -> Seq<char>,
) -> Seq<char> {
    line_of(
        i,
        quote(w.app_name),
        quote(shown_title(w.title)),
        match w.document_path {
            Some(doc) => Some(quote(doc)),
            None => None,
        },
    )
}

/// The lines of the question for the first `k` windows.
pub open spec fn window_lines(
    windows: Seq<WindowInfoView>,
    k: nat,
    quote: spec_fn(Seq<char>) -> Seq<char>,
) -> Seq<char>
    decreases k,
{
    if k == 0 {
        Seq::empty()
    } else {
        window_lines(windows, (k - 1) as nat, quote) + window_line(
            (k - 1) as nat,
            windows[k - 1],
            quote,
        )
    }
}

/// The lines for the directories of the repos.
pub open spec fn repo_lines(paths: Seq<Seq<char>>) -> Seq<char>
    decreases paths.len(),
{
    if paths.len() == 0 {
        Seq::empty()
    } else {
        repo_lines(paths.drop_last()) + ("  - "@ + paths.last() + "\n"@)
    }
}

/// What stands before the windows in the question.
pub open spec fn question_head(ctx: WsContextView) -> Seq<char> {
    QUESTION_INTRO@ + ("Workspace name: "@ + ctx.name + "\n"@) + ("Workspace directory: "@
        + ctx.path + "\n"@) + (if ctx.repo_paths.len() > 0 {
        "Repository directories:\n"@ + repo_lines(ctx.repo_paths)
    } else {
        Seq::empty()
    }) + "\nOpen windows (index, app, title, and open file if any):\n"@
}

/// What the assistant is asked about the windows of a workspace.
pub open spec fn question(
    ctx: WsContextView,
    windows: Seq<WindowInfoView>,
    quote: spec_fn(Seq<char>) -> Seq<char>,
) -> Seq<char> {
    question_head(ctx) + window_lines(windows, windows.len(), quote) + QUESTION_GUIDANCE@
}

/// The line of the question for the window at `i`, its parts in quotes.
pub fn line_with(i: usize, app: &str, title: &str, file: Option<String>) -> (r: String)
    ensures
        r@ == line_of(i as nat, app@, title@, file.deep_view()),
{
    let index = decimal(i as u64);
    let mut s = cat3("[", index.as_str(), "] app=");
    s = cat3(s.as_str(), app, " title=");
    s = cat(s.as_str(), title);
    match &file {
        Some(f) => {
            let tail = cat3(" file=", f.as_str(), "\n");
            s = cat(s.as_str(), tail.as_str());
        },
        None => {
            s = cat(s.as_str(), "\n");
        },
    }
    assert(s@ =~= line_of(i as nat, app@, title@, file.deep_view()));
    s
}

/// The line of the question for the window at `i`.
fn line_for(i: usize, w: &WindowInfo) -> (r: String)
    ensures
        r@ == window_line(i as nat, w.deep_view(), |s: Seq<char>| quoted(s)),
{
    let t = trim(w.title.as_str());
    let cs = chars_of(t.as_str());
    let title = if cs.len() == 0 {
        debug_quote("(untitled)")
    } else {
        debug_quote(t.as_str())
    };
    let app = debug_quote(w.app_name.as_str());
    let file = match &w.document_path {
        Some(doc) => Some(debug_quote(doc.as_str())),
        None => None,
    };
    line_with(i, app.as_str(), title.as_str(), file)
}

/// What the assistant is asked about the windows of a workspace.
pub fn build_prompt(ctx: &WsContext, windows: &Vec<WindowInfo>) -> (r: String)
    ensures
        r@ == question(ctx.deep_view(), windows.deep_view(), |s: Seq<char>| quoted(s)),
{
    let ghost c = ctx.deep_view();
    let ghost v = windows.deep_view();
    let ghost quote = |s: Seq<char>| quoted(s);
    let name = cat3("Workspace name: ", ctx.name.as_str(), "\n");
    let dir = cat3("Workspace directory: ", ctx.path.as_str(), "\n");
    let mut s = cat3(QUESTION_INTRO, name.as_str(), dir.as_str());
    if ctx.repo_paths.len() > 0 {
        let mut list = String::new();
        assert(list@ =~= repo_lines(c.repo_paths.take(0)));
        for i in 0..ctx.repo_paths.len()
            invariant
                c == ctx.deep_view(),
                list@ == repo_lines(c.repo_paths.take(i as int)),
        {
            proof {
                assert(c.repo_paths.take(i + 1).drop_last() =~= c.repo_paths.take(i as int));
                assert(c.repo_paths.take(i + 1).last() == ctx.repo_paths@[i as int]@);
            }
            let line = cat3("  - ", ctx.repo_paths[i].as_str(), "\n");
            list = cat(list.as_str(), line.as_str());
        }
        assert(c.repo_paths.take(c.repo_paths.len() as int) =~= c.repo_paths);
        s = cat3(s.as_str(), "Repository directories:\n", list.as_str());
    }
    s = cat(s.as_str(), "\nOpen windows (index, app, title, and open file if any):\n");
    assert(s@ =~= question_head(c));
    let mut rows = String::new();
    assert(rows@ =~= window_lines(v, 0, quote));
    for i in 0..windows.len()
        invariant
            v == windows.deep_view(),
            quote == (|s: Seq<char>| quoted(s)),
            rows@ == window_lines(v, i as nat, quote),
    {
        let line = line_for(i, &windows[i]);
        assert(v[i as int] == windows@[i as int].deep_view());
        rows = cat(rows.as_str(), line.as_str());
    }
    cat3(s.as_str(), rows.as_str(), QUESTION_GUIDANCE)
}

/// The question names the workspace, its directory and those of its repos, and lists
/// every window under the index by which it is picked.
pub proof fn question_lists_all(
    ctx: WsContextView,
    windows: Seq<WindowInfoView>,
    quote: spec_fn(Seq<char>) -> Seq<char>,
    i: int,
    k: int,
)
    ensures
        occurs(question(ctx, windows, quote), "Workspace name: "@ + ctx.name + "\n"@),
        occurs(question(ctx, windows, quote), "Workspace directory: "@ + ctx.path + "\n"@),
        0 <= i < windows.len() ==> occurs(
            question(ctx, windows, quote),
            window_line(i as nat, windows[i], quote),
        ),
        0 <= k < ctx.repo_paths.len() ==> occurs(
            question(ctx, windows, quote),
            "  - "@ + ctx.repo_paths[k] + "\n"@,
        ),
{
    let q = question(ctx, windows, quote);
    let a = "Workspace name: "@ + ctx.name + "\n"@;
    let b = "Workspace directory: "@ + ctx.path + "\n"@;
    let none: Seq<char> = Seq::empty();
    let r = if ctx.repo_paths.len() > 0 {
        "Repository directories:\n"@ + repo_lines(ctx.repo_paths)
    } else {
        none
    };
    let o = "\nOpen windows (index, app, title, and open file if any):\n"@;
    let l = window_lines(windows, windows.len(), quote);
    lemma_stands(QUESTION_INTRO@, a, b + r + o + l + QUESTION_GUIDANCE@, q);
    lemma_stands(QUESTION_INTRO@ + a, b, r + o + l + QUESTION_GUIDANCE@, q);
    if 0 <= i < windows.len() {
        lemma_window_listed(windows, windows.len(), quote, i);
        lemma_stands(QUESTION_INTRO@ + a + b + r + o, l, QUESTION_GUIDANCE@, q);
        lemma_occurs_in(q, l, window_line(i as nat, windows[i], quote));
    }
    if 0 <= k < ctx.repo_paths.len() {
        lemma_repo_listed(ctx.repo_paths, k);
        let h = "Repository directories:\n"@;
        let rl = repo_lines(ctx.repo_paths);
        lemma_stands(QUESTION_INTRO@ + a + b + h, rl, o + l + QUESTION_GUIDANCE@, q);
        lemma_occurs_in(q, rl, "  - "@ + ctx.repo_paths[k] + "\n"@);
    }
}

proof fn lemma_stands(a: Seq<char>, p: Seq<char>, b: Seq<char>, s: Seq<char>)
    requires
        s =~= a + p + b,
    ensures
        occurs(s, p),
{
    let k = a.len() as int;
    assert(s.subrange(k, k + p.len()) =~= p);
    assert(occurs_at(s, p, k));
}

proof fn lemma_occurs_in(s: Seq<char>, t: Seq<char>, p: Seq<char>)
    requires
        occurs(s, t),
        occurs(t, p),
    ensures
        occurs(s, p),
{
    let i = choose|i: int| occurs_at(s, t, i);
    let k = choose|k: int| occurs_at(t, p, k);
    assert(s.subrange(i + k, i + k + p.len()) =~= s.subrange(i, i + t.len()).subrange(
        k,
        k + p.len(),
    ));
    assert(occurs_at(s, p, i + k));
}

proof fn lemma_window_listed(
    windows: Seq<WindowInfoView>,
    n: nat,
    quote: spec_fn(Seq<char>) -> Seq<char>,
    i: int,
)
    requires
        0 <= i < n <= windows.len(),
    ensures
        occurs(window_lines(windows, n, quote), window_line(i as nat, windows[i], quote)),
    decreases n,
{
    let all = window_lines(windows, n, quote);
    let rest = window_lines(windows, (n - 1) as nat, quote);
    let last = window_line((n - 1) as nat, windows[n - 1], quote);
    let none: Seq<char> = Seq::empty();
    if i < n - 1 {
        lemma_window_listed(windows, (n - 1) as nat, quote, i);
        lemma_stands(none, rest, last, all);
        lemma_occurs_in(all, rest, window_line(i as nat, windows[i], quote));
    } else {
        lemma_stands(rest, last, none, all);
    }
}

proof fn lemma_repo_listed(paths: Seq<Seq<char>>, k: int)
    requires
        0 <= k < paths.len(),
    ensures
        occurs(repo_lines(paths), "  - "@ + paths[k] + "\n"@),
    decreases paths.len(),
{
    let t = paths.drop_last();
    let all = repo_lines(paths);
    let rest = repo_lines(t);
    let last = "  - "@ + paths.last() + "\n"@;
    let none: Seq<char> = Seq::empty();
    if k < t.len() {
        assert(t[k] == paths[k]);
        lemma_repo_listed(t, k);
        lemma_stands(none, rest, last, all);
        lemma_occurs_in(all, rest, "  - "@ + paths[k] + "\n"@);
    } else {
        lemma_stands(rest, last, none, all);
    }
}

} // verus!
