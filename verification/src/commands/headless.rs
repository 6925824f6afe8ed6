//! Finding programs and running a headless session of the assistant.
use vstd::prelude::*;

use crate::assistant::Assistant;
use crate::error::{outcome, Error, ErrorView};
use crate::paths::{
    components, components_of, is_absolute, is_within, join_path, joined_lies_below, joined_path,
};
use crate::text::{cat, cat3, chars_of, own, same, trim, trimmed};

verus! {

/// The program to run for the assistant: the one that is configured, else the one that
/// was found, else its bare name.
pub open spec fn program(
    bare: Seq<char>,
    configured: Option<Seq<char>>,
    found: Option<Seq<char>>,
) -> Seq<char> {
    match (configured, found) {
        (Some(p), f) => if p.len() > 0 {
            p
        } else {
            match f {
                Some(p) => p,
                None => bare,
            }
        },
        (None, Some(p)) => p,
        (None, None) => bare,
    }
}

/// The program to run for the assistant: the one that is configured, else the one that
/// was found, else its bare name.
pub fn resolve_claude(who: &Assistant, configured: Option<String>, found: Option<String>) -> (r:
    String)
    ensures
        r@ == program(who@.program, configured.deep_view(), found.deep_view()),
{
    if let Some(p) = configured {
        let cs = chars_of(p.as_str());
        if cs.len() > 0 {
            return p;
        }
    }
    match found {
        Some(p) => p,
        None => own(who.program.as_str()),
    }
}

/// The directories of programs in a home directory; `dir` is the directory of the
/// assistant.
pub open spec fn home_bin_dirs(home: Seq<char>, dir: Seq<char>) -> Seq<Seq<char>> {
    seq![
        joined_path(home, ".cargo/bin"@),
        joined_path(home, ".local/bin"@),
        joined_path(home, dir + "/local"@),
        joined_path(home, ".npm-global/bin"@),
        joined_path(home, ".volta/bin"@),
    ]
}

/// Directories where programs often are, beyond the search path.
pub open spec fn bin_dirs(home: Option<Seq<char>>, dir: Seq<char>) -> Seq<Seq<char>> {
    let shared = seq!["/opt/homebrew/bin"@, "/usr/local/bin"@, "/usr/bin"@];
    match home {
        Some(h) => home_bin_dirs(h, dir) + shared,
        None => shared,
    }
}

/// Directories where programs often are, beyond the search path: an application
/// that is not started from a shell has a short one.
pub fn common_bin_dirs(who: &Assistant, home: Option<&str>) -> (r: Vec<String>)
    ensures
        r.deep_view() == bin_dirs(
            match home {
                Some(h) => Some(h@),
                None => None,
            },
            who@.dir,
        ),
{
    let mut dirs: Vec<String> = Vec::new();
    if let Some(h) = home {
        dirs.push(join_path(h, ".cargo/bin"));
        dirs.push(join_path(h, ".local/bin"));
        let local = cat(who.dir.as_str(), "/local");
        dirs.push(join_path(h, local.as_str()));
        dirs.push(join_path(h, ".npm-global/bin"));
        dirs.push(join_path(h, ".volta/bin"));
    }
    dirs.push(own("/opt/homebrew/bin"));
    dirs.push(own("/usr/local/bin"));
    dirs.push(own("/usr/bin"));
    assert(dirs.deep_view() =~= bin_dirs(
        match home {
            Some(h) => Some(h@),
            None => None,
        },
        who@.dir,
    ));
    dirs
}

/// Where a program may be, in the order in which it is looked for: on the search
/// path, then in the common directories.
pub fn binary_candidates(
    who: &Assistant,
    name: &str,
    path_dirs: &Vec<String>,
    home: Option<&str>,
) -> (r: Vec<String>)
    ensures
        r.deep_view() == (path_dirs.deep_view() + bin_dirs(
            match home {
                Some(h) => Some(h@),
                None => None,
            },
            who@.dir,
        )).map_values(|d: Seq<char>| joined_path(d, name@)),
{
    let ghost h = match home {
        Some(h) => Some(h@),
        None => None,
    };
    let ghost all = path_dirs.deep_view() + bin_dirs(h, who@.dir);
    let common = common_bin_dirs(who, home);
    let mut out: Vec<String> = Vec::new();
    for i in 0..path_dirs.len()
        invariant
            all == path_dirs.deep_view() + bin_dirs(h, who@.dir),
            out@.len() == i,
            forall|j: int| 0 <= j < i ==> (#[trigger] out@[j])@ == joined_path(all[j], name@),
    {
        assert(all[i as int] == path_dirs@[i as int]@);
        out.push(join_path(path_dirs[i].as_str(), name));
    }
    let ghost n = path_dirs@.len();
    for i in 0..common.len()
        invariant
            n == path_dirs@.len(),
            all == path_dirs.deep_view() + bin_dirs(h, who@.dir),
            common.deep_view() == bin_dirs(h, who@.dir),
            out@.len() == n + i,
            forall|j: int| 0 <= j < n + i ==> (#[trigger] out@[j])@ == joined_path(all[j], name@),
    {
        assert(all[n + i] == common.deep_view()[i as int]);
        assert(common.deep_view()[i as int] == common@[i as int]@);
        out.push(join_path(common[i].as_str(), name));
    }
    assert(out.deep_view() =~= all.map_values(|d: Seq<char>| joined_path(d, name@)));
    out
}

/// The first of the places where a program may be at which there is a file.
pub fn find_binary(candidates: Vec<String>, is_file: &Vec<bool>) -> (r: Option<String>)
    requires
        candidates@.len() == is_file@.len(),
    ensures
        match r {
            Some(p) => exists|i: int|
                0 <= i < is_file@.len() && #[trigger] is_file@[i] && (forall|j: int|
                    0 <= j < i ==> !#[trigger] is_file@[j]) && p@ == candidates.deep_view()[i],
            None => forall|i: int| 0 <= i < is_file@.len() ==> !#[trigger] is_file@[i],
        },
{
    for i in 0..is_file.len()
        invariant
            candidates@.len() == is_file@.len(),
            forall|j: int| 0 <= j < i ==> !#[trigger] is_file@[j],
    {
        if is_file[i] {
            assert(candidates.deep_view()[i as int] == candidates@[i as int]@);
            return Some(candidates[i].clone());
        }
    }
    None
}

/// Whether a list has a path with the same components.
pub open spec fn has_path(list: Seq<Seq<char>>, p: Seq<char>) -> bool {
    exists|i: int| 0 <= i < list.len() && components_of(#[trigger] list[i]) == components_of(p)
}

/// Each path where it appears first.
pub open spec fn first_paths(list: Seq<Seq<char>>) -> Seq<Seq<char>>
    decreases list.len(),
{
    if list.len() == 0 {
        Seq::empty()
    } else {
        let rest = first_paths(list.drop_last());
        if has_path(rest, list.last()) {
            rest
        } else {
            rest.push(list.last())
        }
    }
}

/// Whether two lists of strings are the same.
pub fn same_strings(a: &Vec<String>, b: &Vec<String>) -> (r: bool)
    ensures
        r == (a.deep_view() == b.deep_view()),
{
    if a.len() != b.len() {
        assert(a.deep_view().len() != b.deep_view().len());
        return false;
    }
    for i in 0..a.len()
        invariant
            a@.len() == b@.len(),
            forall|j: int| 0 <= j < i ==> (#[trigger] a@[j])@ == b@[j]@,
    {
        if !same(a[i].as_str(), b[i].as_str()) {
            assert(a.deep_view()[i as int] != b.deep_view()[i as int]);
            return false;
        }
    }
    assert(a.deep_view() =~= b.deep_view());
    true
}

/// The search path for a program that is run: `extra_first`, then the common
/// directories, then the search path as it is, each directory once.
pub fn augmented_path(
    who: &Assistant,
    extra_first: Option<String>,
    home: Option<&str>,
    path_dirs: &Vec<String>,
) -> (r: Vec<String>)
    ensures
        r.deep_view() == first_paths(
            (match extra_first.deep_view() {
                Some(d) => seq![d],
                None => Seq::empty(),
            }) + bin_dirs(
                match home {
                    Some(h) => Some(h@),
                    None => None,
                },
                who@.dir,
            ) + path_dirs.deep_view(),
        ),
{
    let ghost h = match home {
        Some(h) => Some(h@),
        None => None,
    };
    let ghost first: Seq<Seq<char>> = match extra_first.deep_view() {
        Some(d) => seq![d],
        None => Seq::empty(),
    };
    let ghost all = first + bin_dirs(h, who@.dir) + path_dirs.deep_view();
    let mut dirs: Vec<String> = Vec::new();
    if let Some(d) = extra_first {
        dirs.push(d);
    }
    assert(dirs.deep_view() =~= first);
    let mut common = common_bin_dirs(who, home);
    let ghost b = common.deep_view();
    dirs.append(&mut common);
    assert(dirs.deep_view() =~= first + b);
    for i in 0..path_dirs.len()
        invariant
            all == first + bin_dirs(h, who@.dir) + path_dirs.deep_view(),
            dirs.deep_view() == first + bin_dirs(h, who@.dir) + path_dirs.deep_view().take(i as int),
    {
        let ghost g = dirs.deep_view();
        dirs.push(path_dirs[i].clone());
        assert(dirs.deep_view() =~= g.push(path_dirs@[i as int]@));
        assert(dirs.deep_view() =~= first + bin_dirs(h, who@.dir) + path_dirs.deep_view().take(i + 1));
    }
    assert(path_dirs.deep_view().take(path_dirs@.len() as int) =~= path_dirs.deep_view());
    assert(dirs.deep_view() == all);
    let mut out: Vec<String> = Vec::new();
    assert(out.deep_view() =~= first_paths(all.take(0)));
    for i in 0..dirs.len()
        invariant
            dirs.deep_view() == all,
            out.deep_view() == first_paths(all.take(i as int)),
    {
        let ghost g = out.deep_view();
        let c = components(dirs[i].as_str());
        let mut seen = false;
        for k in 0..out.len()
            invariant
                g == out.deep_view(),
                c.deep_view() == components_of(dirs@[i as int]@),
                seen == (exists|j: int|
                    0 <= j < k && components_of(#[trigger] g[j]) == c.deep_view()),
        {
            let other = components(out[k].as_str());
            assert(g[k as int] == out@[k as int]@);
            if same_strings(&other, &c) {
                seen = true;
            }
        }
        proof {
            assert(all.take(i + 1).drop_last() =~= all.take(i as int));
            assert(all.take(i + 1).last() == dirs@[i as int]@);
            assert(seen == has_path(g, dirs@[i as int]@));
        }
        if !seen {
            out.push(dirs[i].clone());
            assert(out.deep_view() =~= g.push(dirs@[i as int]@));
        }
    }
    assert(all.take(all.len() as int) =~= all);
    out
}

/// The search path has every directory that was asked for, and none twice.
pub proof fn first_paths_law(list: Seq<Seq<char>>)
    ensures
        forall|i: int| 0 <= i < list.len() ==> has_path(first_paths(list), #[trigger] list[i]),
        forall|i: int, j: int|
            0 <= i < j < first_paths(list).len() ==> components_of(
                #[trigger] first_paths(list)[i],
            ) != components_of(#[trigger] first_paths(list)[j]),
    decreases list.len(),
{
    if list.len() > 0 {
        let t = list.drop_last();
        let rest = first_paths(t);
        let now = first_paths(list);
        first_paths_law(t);
        assert forall|p: Seq<char>| has_path(rest, p) implies has_path(now, p) by {
            let k = choose|k: int|
                0 <= k < rest.len() && components_of(#[trigger] rest[k]) == components_of(p);
            assert(now[k] == rest[k]);
        }
        assert forall|i: int| 0 <= i < list.len() implies has_path(now, #[trigger] list[i]) by {
            if i < t.len() {
                assert(t[i] == list[i]);
            } else if !has_path(rest, list.last()) {
                assert(now[rest.len() as int] == list[i]);
            }
        }
        assert forall|i: int, j: int| 0 <= i < j < now.len() implies components_of(
            #[trigger] now[i],
        ) != components_of(#[trigger] now[j]) by {
            assert(now[i] == rest[i]);
            if j < rest.len() {
                assert(now[j] == rest[j]);
            }
        }
    }
}

/// How a headless session whose answer is taken is asked for: with no tools.
pub fn capture_args() -> (r: Vec<String>)
    ensures
        r.deep_view() == seq!["-p"@],
{
    let mut v: Vec<String> = Vec::new();
    v.push(own("-p"));
    assert(v.deep_view() =~= seq!["-p"@]);
    v
}

/// The variables that a headless session does not get: a key in the environment
/// would take precedence over the user's subscription.
pub fn withheld_variables() -> (r: Vec<String>)
    ensures
        r.deep_view() == seq!["ANTHROPIC_API_KEY"@],
{
    let mut v: Vec<String> = Vec::new();
    v.push(own("ANTHROPIC_API_KEY"));
    assert(v.deep_view() =~= seq!["ANTHROPIC_API_KEY"@]);
    v
}

/// The assistant could not be launched.
pub fn launch_error(who: &Assistant, reason: &str) -> (r: Error)
    ensures
        r@ == ErrorView::Git(
            "could not launch `"@ + who@.program + "` ("@ + reason@ + "). Is "@ + who@.product
                + " installed and on your PATH?"@,
        ),
{
    let mut s = cat3("could not launch `", who.program.as_str(), "` (");
    s = cat3(s.as_str(), reason, "). Is ");
    Error::Git(cat3(s.as_str(), who.product.as_str(), " installed and on your PATH?"))
}

/// The prompt could not be sent.
pub fn send_error(who: &Assistant, reason: &str) -> (r: Error)
    ensures
        r@ == ErrorView::Git("failed to send prompt to "@ + who@.program + ": "@ + reason@),
{
    Error::Git(cat3(cat("failed to send prompt to ", who.program.as_str()).as_str(), ": ", reason))
}

/// The answer could not be read.
pub fn read_error(who: &Assistant, reason: &str) -> (r: Error)
    ensures
        r@ == ErrorView::Git("failed to read "@ + who@.program + " output: "@ + reason@),
{
    Error::Git(cat3(cat("failed to read ", who.program.as_str()).as_str(), " output: ", reason))
}

/// The session could not be waited for.
pub fn session_error(who: &Assistant, reason: &str) -> (r: Error)
    ensures
        r@ == ErrorView::Git(who@.program + " session failed: "@ + reason@),
{
    Error::Git(cat3(who.program.as_str(), " session failed: ", reason))
}

/// What a headless session comes to: its output, unless it failed and there is
/// none.
pub fn run_headless_capture(who: &Assistant, success: bool, out: String) -> (r: Result<String, Error>)
    ensures
        outcome(r) == (if !success && trimmed(out@).len() == 0 {
            Err(ErrorView::Git(who@.program + " session ended without output"@))
        } else {
            Ok(out@)
        }),
{
    let t = trim(out.as_str());
    let cs = chars_of(t.as_str());
    if !success && cs.len() == 0 {
        Err(Error::Git(cat(who.program.as_str(), " session ended without output")))
    } else {
        Ok(out)
    }
}

/// A program that is configured is run before one that is found, and one that is
/// found before the bare name; an empty configuration is none.
pub proof fn program_precedence(
    bare: Seq<char>,
    configured: Option<Seq<char>>,
    found: Option<Seq<char>>,
)
    ensures
        configured is Some && configured->0.len() > 0 ==> program(bare, configured, found)
            == configured->0,
        (configured is None || configured->0.len() == 0) && found is Some ==> program(
            bare,
            configured,
            found,
        ) == found->0,
        (configured is None || configured->0.len() == 0) && found is None ==> program(
            bare,
            configured,
            found,
        ) == bare,
{
}

/// Programs are looked for in the home directory first, where that is known, and in
/// the shared directories wherever they are looked for at all.
pub proof fn common_dirs(home: Seq<char>, dir: Seq<char>, i: int)
    ensures
        bin_dirs(Some(home), dir).len() == 8,
        bin_dirs(None, dir).len() == 3,
        0 <= i < 3 ==> bin_dirs(Some(home), dir)[5 + i] == bin_dirs(None, dir)[i],
        home.len() > 0 && !is_absolute(dir) && dir.len() > 0 && 0 <= i < 5 ==> is_within(
            bin_dirs(Some(home), dir)[i],
            home,
        ),
{
    let b = bin_dirs(Some(home), dir);
    let h = home_bin_dirs(home, dir);
    if home.len() > 0 && !is_absolute(dir) && dir.len() > 0 && 0 <= i < 5 {
        reveal_strlit(".cargo/bin");
        reveal_strlit(".local/bin");
        reveal_strlit(".npm-global/bin");
        reveal_strlit(".volta/bin");
        joined_lies_below(home, ".cargo/bin"@);
        joined_lies_below(home, ".local/bin"@);
        joined_lies_below(home, ".npm-global/bin"@);
        joined_lies_below(home, ".volta/bin"@);
        let l = dir + "/local"@;
        assert(l[0] == dir[0]);
        joined_lies_below(home, l);
        assert(b[i] == h[i]);
    }
}

/// The search path keeps the order in which directories are asked for, each at its
/// first place: what comes later changes nothing before it.
pub proof fn first_paths_in_order(list: Seq<Seq<char>>, x: Seq<char>)
    ensures
        first_paths(list).is_prefix_of(first_paths(list.push(x))),
        !has_path(first_paths(list), x) ==> first_paths(list.push(x)) == first_paths(list).push(x),
        has_path(first_paths(list), x) ==> first_paths(list.push(x)) == first_paths(list),
        first_paths(seq![x]) == seq![x],
{
    assert(list.push(x).drop_last() =~= list);
    let (a, b) = (first_paths(list), first_paths(list.push(x)));
    assert(a =~= b.take(a.len() as int));
    let none: Seq<Seq<char>> = Seq::empty();
    assert(seq![x].drop_last() =~= none);
    assert(first_paths(none) == none);
    assert(!has_path(none, x));
    assert(none.push(x) =~= seq![x]);
}

} // verus!
