//! The pull requests of a workspace's repos, as the GitHub command line lists
//! them.
use vstd::prelude::*;

use crate::json::{lemma_array_view, lemma_object_view, parse_json_bytes, parsed_json_bytes, Json, JsonView};
use crate::order::{keeps_order, lemma_insertion};
use crate::table::entry;
use crate::text::{own, own_all, same};

verus! {

/// The state of a pull request. One that was closed without being merged has
/// none: it is not shown.
#[derive(Debug, Clone, Copy, PartialEq, Eq, Structural)]
pub enum PrState {
    Draft,
    Open,
    Merged,
}

impl PrState {
    /// The word for it.
    pub open spec fn word(self) -> Seq<char> {
        match self {
            PrState::Draft => "draft"@,
            PrState::Open => "open"@,
            PrState::Merged => "merged"@,
        }
    }

    /// The word for it.
    pub fn label(self) -> (r: &'static str)
        ensures
            r@ == self.word(),
    {
        match self {
            PrState::Draft => "draft",
            PrState::Open => "open",
            PrState::Merged => "merged",
        }
    }
}

/// A pull request of a repo.
#[derive(Debug)]
pub struct PrInfo {
    pub repo: String,
    pub number: u64,
    pub state: PrState,
    pub url: String,
    pub title: String,
}

/// What a [`PrInfo`] stands for.
#[verifier::ext_equal]
pub struct PrInfoView {
    pub repo: Seq<char>,
    pub number: u64,
    pub state: PrState,
    pub url: Seq<char>,
    pub title: Seq<char>,
}

impl DeepView for PrInfo {
    type V = PrInfoView;

    open spec fn deep_view(&self) -> PrInfoView {
        PrInfoView {
            repo: self.repo@,
            number: self.number,
            state: self.state,
            url: self.url@,
            title: self.title@,
        }
    }
}

/// An item of the list as GitHub spells it.
pub struct GhPr {
    pub number: u64,
    pub state: String,
    pub is_draft: bool,
    pub url: String,
    pub title: String,
}

/// What a [`GhPr`] stands for.
#[verifier::ext_equal]
pub struct GhPrView {
    pub number: u64,
    pub state: Seq<char>,
    pub is_draft: bool,
    pub url: Seq<char>,
    pub title: Seq<char>,
}

impl DeepView for GhPr {
    type V = GhPrView;

    open spec fn deep_view(&self) -> GhPrView {
        GhPrView {
            number: self.number,
            state: self.state@,
            is_draft: self.is_draft,
            url: self.url@,
            title: self.title@,
        }
    }
}

/// The state to show, none for a pull request that was closed unmerged.
pub open spec fn shown_state(state: Seq<char>, is_draft: bool) -> Option<PrState> {
    if state == "MERGED"@ {
        Some(PrState::Merged)
    } else if state == "OPEN"@ {
        Some(
            if is_draft {
                PrState::Draft
            } else {
                PrState::Open
            },
        )
    } else {
        None
    }
}

/// What is shown of an item.
pub open spec fn info_of(repo: Seq<char>, gh: GhPrView) -> Option<PrInfoView> {
    match shown_state(gh.state, gh.is_draft) {
        Some(state) => Some(
            PrInfoView { repo, number: gh.number, state, url: gh.url, title: gh.title },
        ),
        None => None,
    }
}

/// What is shown of an item.
pub fn from_gh(repo: &str, gh: GhPr) -> (r: Option<PrInfo>)
    ensures
        r.deep_view() == info_of(repo@, gh.deep_view()),
{
    let state = if same(gh.state.as_str(), "MERGED") {
        PrState::Merged
    } else if same(gh.state.as_str(), "OPEN") {
        if gh.is_draft {
            PrState::Draft
        } else {
            PrState::Open
        }
    } else {
        return None;
    };
    Some(PrInfo { repo: own(repo), number: gh.number, state, url: gh.url, title: gh.title })
}

/// An item, where its parts are of the right kinds. A missing title is empty.
pub open spec fn item_of(
    number: Option<JsonView>,
    state: Option<JsonView>,
    is_draft: Option<JsonView>,
    url: Option<JsonView>,
    title: Option<JsonView>,
) -> Option<GhPrView> {
    match (number, state, is_draft, url) {
        (
            Some(JsonView::UInt(number)),
            Some(JsonView::Text(state)),
            Some(JsonView::Bool(is_draft)),
            Some(JsonView::Text(url)),
        ) => match title {
            None => Some(GhPrView { number, state, is_draft, url, title: Seq::empty() }),
            Some(JsonView::Text(title)) => Some(
                GhPrView { number, state, is_draft, url, title },
            ),
            Some(_) => None,
        },
        _ => None,
    }
}

/// The item at an index, if there is one.
pub open spec fn nth(v: Seq<JsonView>, i: int) -> Option<JsonView> {
    if i < v.len() {
        Some(v[i])
    } else {
        None
    }
}

/// The item that a document spells: an object with its parts by name, or an
/// array of them in order.
pub open spec fn decoded(j: JsonView) -> Option<GhPrView> {
    match j {
        JsonView::Object(f) => item_of(
            entry(f, "number"@),
            entry(f, "state"@),
            entry(f, "isDraft"@),
            entry(f, "url"@),
            entry(f, "title"@),
        ),
        JsonView::Array(v) => if v.len() <= 5 {
            item_of(nth(v, 0), nth(v, 1), nth(v, 2), nth(v, 3), nth(v, 4))
        } else {
            None
        },
        _ => None,
    }
}

/// The items that a list of documents spells, none of them where one is wrong.
pub open spec fn all_decoded(items: Seq<JsonView>) -> Option<Seq<GhPrView>>
    decreases items.len(),
{
    if items.len() == 0 {
        Some(Seq::empty())
    } else {
        match (all_decoded(items.drop_last()), decoded(items.last())) {
            (Some(list), Some(x)) => Some(list.push(x)),
            _ => None,
        }
    }
}

/// What is shown of a list of items.
pub open spec fn shown(repo: Seq<char>, items: Seq<GhPrView>) -> Seq<PrInfoView>
    decreases items.len(),
{
    if items.len() == 0 {
        Seq::empty()
    } else {
        match info_of(repo, items.last()) {
            Some(i) => shown(repo, items.drop_last()).push(i),
            None => shown(repo, items.drop_last()),
        }
    }
}

/// What is shown of the document that GitHub answered, if it is one.
pub open spec fn listed(repo: Seq<char>, answer: Option<JsonView>) -> Seq<PrInfoView> {
    match answer {
        Some(JsonView::Array(items)) => match all_decoded(items) {
            Some(list) => shown(repo, list),
            None => Seq::empty(),
        },
        _ => Seq::empty(),
    }
}

fn item(
    number: Option<&Json>,
    state: Option<&Json>,
    is_draft: Option<&Json>,
    url: Option<&Json>,
    title: Option<&Json>,
) -> (r: Option<GhPr>)
    ensures
        r.deep_view() == item_of(
            number.deep_view(),
            state.deep_view(),
            is_draft.deep_view(),
            url.deep_view(),
            title.deep_view(),
        ),
{
    let number: u64 = match number {
        Some(Json::UInt(n)) => *n,
        _ => {
            return None;
        },
    };
    let state = match state {
        Some(Json::Text(s)) => s.clone(),
        _ => {
            return None;
        },
    };
    let is_draft = match is_draft {
        Some(Json::Bool(b)) => *b,
        _ => {
            return None;
        },
    };
    let url = match url {
        Some(Json::Text(s)) => s.clone(),
        _ => {
            return None;
        },
    };
    let title = match title {
        None => String::new(),
        Some(Json::Text(s)) => s.clone(),
        Some(_) => {
            return None;
        },
    };
    let gh = GhPr { number, state, is_draft, url, title };
    assert(gh.title@ =~= gh.deep_view().title);
    Some(gh)
}

fn at(v: &Vec<Json>, i: usize) -> (r: Option<&Json>)
    ensures
        r.deep_view() == nth(v.deep_view(), i as int),
{
    if i < v.len() {
        Some(&v[i])
    } else {
        None
    }
}

fn decode(j: &Json) -> (r: Option<GhPr>)
    ensures
        r.deep_view() == decoded(j@),
{
    match j {
        Json::Object(f) => {
            proof {
                lemma_object_view(*f);
            }
            item(j.get("number"), j.get("state"), j.get("isDraft"), j.get("url"), j.get("title"))
        },
        Json::Array(v) => {
            proof {
                lemma_array_view(*v);
            }
            if v.len() > 5 {
                return None;
            }
            item(at(v, 0), at(v, 1), at(v, 2), at(v, 3), at(v, 4))
        },
        _ => None,
    }
}

/// What is shown for `repo` of the document that GitHub answered: nothing where
/// the answer is not such a list.
pub fn list_items(repo: &str, answer: Option<Json>) -> (r: Vec<PrInfo>)
    ensures
        r.deep_view() == listed(repo@, answer.deep_view()),
{
    let mut out: Vec<PrInfo> = Vec::new();
    assert(out.deep_view() =~= Seq::<PrInfoView>::empty());
    if let Some(j) = &answer {
        if let Some(items) = j.items() {
            let ghost v = items.deep_view();
            let ghost mut list: Seq<GhPrView> = Seq::empty();
            for i in 0..items.len()
                invariant
                    v == items.deep_view(),
                    answer.deep_view() == Some(JsonView::Array(v)),
                    all_decoded(v.take(i as int)) == Some(list),
                    out.deep_view() == shown(repo@, list),
            {
                proof {
                    assert(v.take(i + 1).drop_last() =~= v.take(i as int));
                    assert(v.take(i + 1).last() == items@[i as int]@);
                }
                match decode(&items[i]) {
                    Some(gh) => {
                        let ghost x = gh.deep_view();
                        proof {
                            assert(list.push(x).drop_last() =~= list);
                        }
                        if let Some(info) = from_gh(repo, gh) {
                            let ghost before = out.deep_view();
                            let ghost shown_item = info.deep_view();
                            out.push(info);
                            assert(out.deep_view() =~= before.push(shown_item));
                        }
                        proof {
                            list = list.push(x);
                        }
                    },
                    None => {
                        proof {
                            lemma_prefix_undecoded(v, i + 1);
                        }
                        let empty: Vec<PrInfo> = Vec::new();
                        assert(empty.deep_view() =~= Seq::<PrInfoView>::empty());
                        return empty;
                    },
                }
            }
            assert(v.take(v.len() as int) =~= v);
        }
    }
    out
}

proof fn lemma_prefix_undecoded(v: Seq<JsonView>, n: int)
    requires
        0 <= n <= v.len(),
        all_decoded(v.take(n)) is None,
    ensures
        all_decoded(v) is None,
    decreases v.len() - n,
{
    if n < v.len() {
        assert(v.take(n + 1).drop_last() =~= v.take(n));
        lemma_prefix_undecoded(v, n + 1);
    } else {
        assert(v.take(n) =~= v);
    }
}

/// What is shown for `repo` of what GitHub printed: nothing where that is not
/// such a list.
pub fn parse(repo: &str, json: &[u8]) -> (r: Vec<PrInfo>)
    ensures
        r.deep_view() == listed(repo@, parsed_json_bytes(json@)),
{
    let answer = parse_json_bytes(json);
    assert(answer.deep_view() == parsed_json_bytes(json@));
    list_items(repo, answer)
}

/// How GitHub is asked for the pull requests of a branch.
pub fn pr_list_args(branch: &str) -> (r: Vec<String>)
    ensures
        r.deep_view() == seq![
            "pr"@,
            "list"@,
            "--head"@,
            branch@,
            "--state"@,
            "all"@,
            "--limit"@,
            "30"@,
            "--json"@,
            "number,state,isDraft,url,title"@,
        ],
{
    let v = vec![
        "pr",
        "list",
        "--head",
        branch,
        "--state",
        "all",
        "--limit",
        "30",
        "--json",
        "number,state,isDraft,url,title",
    ];
    assert(v.deep_view() =~= seq![
        "pr"@,
        "list"@,
        "--head"@,
        branch@,
        "--state"@,
        "all"@,
        "--limit"@,
        "30"@,
        "--json"@,
        "number,state,isDraft,url,title"@,
    ]);
    own_all(&v)
}

/// What is shown for several repos: what each of them lists, one after the other.
pub open spec fn all_listed(answers: Seq<(Seq<char>, Seq<u8>)>) -> Seq<PrInfoView>
    decreases answers.len(),
{
    if answers.len() == 0 {
        Seq::empty()
    } else {
        all_listed(answers.drop_last()) + listed(
            answers.last().0,
            parsed_json_bytes(answers.last().1),
        )
    }
}

/// The numbers do not descend.
pub open spec fn by_number(list: Seq<PrInfoView>) -> bool {
    forall|i: int, j: int|
        0 <= i < j < list.len() ==> (#[trigger] list[i]).number <= (#[trigger] list[j]).number
}

/// What a pull request is sorted by.
pub open spec fn number_key() -> spec_fn(PrInfoView) -> u64 {
    |p: PrInfoView| p.number
}

/// The pull requests of a workspace, by what GitHub printed for each repo that
/// it answered for: by number, and those of one number in the order of the repos.
pub fn fetch(answers: &Vec<(String, Vec<u8>)>) -> (r: Vec<PrInfo>)
    ensures
        by_number(r.deep_view()),
        keeps_order(r.deep_view(), all_listed(answers.deep_view()), number_key()),
{
    let ghost a = answers.deep_view();
    let mut out: Vec<PrInfo> = Vec::new();
    assert(out.deep_view() =~= all_listed(a.take(0)));
    for i in 0..answers.len()
        invariant
            a == answers.deep_view(),
            out.deep_view() == all_listed(a.take(i as int)),
    {
        proof {
            assert(a.take(i + 1).drop_last() =~= a.take(i as int));
            assert(answers@[i as int].1.deep_view() =~= answers@[i as int].1@);
            assert(a.take(i + 1).last() == (answers@[i as int].0@, answers@[i as int].1@));
        }
        let mut more = parse(answers[i].0.as_str(), answers[i].1.as_slice());
        let ghost x = out.deep_view();
        let ghost y = more.deep_view();
        out.append(&mut more);
        assert(out.deep_view() =~= x + y);
    }
    assert(a.take(a.len() as int) =~= a);
    sort_by_number(out)
}

fn sort_by_number(list: Vec<PrInfo>) -> (r: Vec<PrInfo>)
    ensures
        by_number(r.deep_view()),
        keeps_order(r.deep_view(), list.deep_view(), number_key()),
{
    let ghost all = list.deep_view();
    let ghost mut taken: Seq<PrInfoView> = Seq::empty();
    let mut rest = list;
    let mut done: Vec<PrInfo> = Vec::new();
    assert(done.deep_view() =~= taken);
    assert(taken + rest.deep_view() =~= all);
    while rest.len() > 0
        invariant
            by_number(done.deep_view()),
            keeps_order(done.deep_view(), taken, number_key()),
            taken + rest.deep_view() == all,
        decreases rest@.len(),
    {
        let ghost before = rest.deep_view();
        let pr = rest.remove(0);
        let ghost x = pr.deep_view();
        assert(before =~= seq![x] + rest.deep_view());
        let ghost d = done.deep_view();
        let n = done.len();
        let mut i: usize = n;
        while i > 0 && pr.number < done[i - 1].number
            invariant
                i <= n,
                n == done@.len(),
                d == done.deep_view(),
                x == pr.deep_view(),
                forall|j: int| i <= j < n ==> x.number < (#[trigger] d[j]).number,
            decreases i,
        {
            i = i - 1;
        }
        proof {
            assert(i > 0 ==> d[i - 1].number == done@[i - 1].number);
            lemma_insertion(d, taken, x, i as int, number_key());
            let s = d.insert(i as int, x);
            assert forall|a: int, b: int| 0 <= a < b < s.len() implies (#[trigger] s[a]).number <= (
            #[trigger] s[b]).number by {
                let p = if a < i {
                    a
                } else {
                    a - 1
                };
                let q = if b < i {
                    b
                } else {
                    b - 1
                };
                if b == i {
                    assert(s[a] == d[a]);
                    assert(d[a].number <= d[i - 1].number);
                } else if a == i {
                    assert(s[b] == d[q]);
                } else {
                    assert(s[a] == d[p] && s[b] == d[q]);
                }
            }
        }
        done.insert(i, pr);
        assert(done.deep_view() =~= d.insert(i as int, x));
        proof {
            assert(taken.push(x) + rest.deep_view() =~= taken + (seq![x] + rest.deep_view()));
            taken = taken.push(x);
        }
    }
    assert(taken =~= all);
    done
}

// ---------------------------------------------------------------------------
// What is shown of what GitHub says
// ---------------------------------------------------------------------------

/// A pull request that is merged is shown as merged, one that is open as a draft or
/// as open, and one that was closed without being merged is not shown. What is
/// shown is what GitHub says of it, under the name of the repo.
pub proof fn shown_as_said(repo: Seq<char>, gh: GhPrView)
    ensures
        info_of(repo, gh) is Some <==> gh.state == "OPEN"@ || gh.state == "MERGED"@,
        info_of(repo, gh) is Some ==> ({
            let i = info_of(repo, gh)->0;
            &&& i.repo == repo
            &&& i.number == gh.number
            &&& i.url == gh.url
            &&& i.title == gh.title
            &&& i.state == PrState::Merged <==> gh.state == "MERGED"@
            &&& i.state == PrState::Draft <==> gh.state == "OPEN"@ && gh.is_draft
            &&& i.state == PrState::Open <==> gh.state == "OPEN"@ && !gh.is_draft
        }),
{
    reveal_strlit("OPEN");
    reveal_strlit("MERGED");
    assert("OPEN"@.len() != "MERGED"@.len());
}

/// An item is read by the names of its fields; a title may be missing, and nothing
/// else may.
pub proof fn item_by_fields(f: Seq<(Seq<char>, JsonView)>)
    ensures
        ({
            let (number, state, draft, url, title) = (
                entry(f, "number"@),
                entry(f, "state"@),
                entry(f, "isDraft"@),
                entry(f, "url"@),
                entry(f, "title"@),
            );
            let r = decoded(JsonView::Object(f));
            &&& r is Some <==> number is Some && number->0 is UInt && state is Some && state->0 is Text
                && draft is Some && draft->0 is Bool && url is Some && url->0 is Text && (title is None
                || title->0 is Text)
            &&& r is Some ==> number == Some(JsonView::UInt(r->0.number)) && state == Some(
                JsonView::Text(r->0.state),
            ) && draft == Some(JsonView::Bool(r->0.is_draft)) && url == Some(
                JsonView::Text(r->0.url),
            ) && (if title is None {
                r->0.title.len() == 0
            } else {
                title == Some(JsonView::Text(r->0.title))
            })
        }),
{
}

/// An answer is taken whole or not at all: where every item can be read, every one
/// is there in its place, and one that cannot be read leaves none.
pub proof fn answer_whole(items: Seq<JsonView>, i: int)
    requires
        0 <= i < items.len(),
    ensures
        decoded(items[i]) is None ==> all_decoded(items) is None,
        all_decoded(items) is Some ==> all_decoded(items)->0.len() == items.len() && decoded(items[i])
            == Some(all_decoded(items)->0[i]),
        (forall|k: int| 0 <= k < items.len() ==> decoded(#[trigger] items[k]) is Some) ==> all_decoded(
            items,
        ) is Some,
    decreases items.len(),
{
    let t = items.drop_last();
    if t.len() > 0 {
        answer_whole(t, if i < t.len() { i } else { 0 });
        if i < t.len() {
            assert(t[i] == items[i]);
        }
        if forall|k: int| 0 <= k < items.len() ==> decoded(#[trigger] items[k]) is Some {
            assert forall|k: int| 0 <= k < t.len() implies decoded(#[trigger] t[k]) is Some by {
                assert(t[k] == items[k]);
            }
        }
    }
    assert(items.last() == items[items.len() - 1]);
    lemma_decoded_len(t);
}

proof fn lemma_decoded_len(items: Seq<JsonView>)
    ensures
        all_decoded(items) is Some ==> all_decoded(items)->0.len() == items.len(),
    decreases items.len(),
{
    if items.len() > 0 {
        lemma_decoded_len(items.drop_last());
    }
}

/// Of a list of items exactly those are shown that are to be shown.
pub proof fn shown_items(repo: Seq<char>, items: Seq<GhPrView>, p: PrInfoView)
    ensures
        shown(repo, items).contains(p) <==> exists|i: int|
            0 <= i < items.len() && info_of(repo, #[trigger] items[i]) == Some(p),
    decreases items.len(),
{
    if items.len() > 0 {
        let t = items.drop_last();
        shown_items(repo, t, p);
        let rest = shown(repo, t);
        let all = shown(repo, items);
        if rest.contains(p) {
            let k = choose|k: int| 0 <= k < rest.len() && rest[k] == p;
            assert(all[k] == p);
            let i = choose|i: int| 0 <= i < t.len() && info_of(repo, #[trigger] t[i]) == Some(p);
            assert(items[i] == t[i]);
        }
        if info_of(repo, items.last()) == Some(p) {
            assert(all[all.len() - 1] == p);
            assert(info_of(repo, items[items.len() - 1]) == Some(p));
        }
        if all.contains(p) {
            let k = choose|k: int| 0 <= k < all.len() && all[k] == p;
            if k < rest.len() {
                assert(rest[k] == p);
            }
        }
        if exists|i: int| 0 <= i < items.len() && info_of(repo, #[trigger] items[i]) == Some(p) {
            let i = choose|i: int|
                0 <= i < items.len() && info_of(repo, #[trigger] items[i]) == Some(p);
            if i < t.len() {
                assert(t[i] == items[i]);
            }
        }
    }
}

/// What several repos list is what each of them lists, under its own name.
pub proof fn all_repos_listed(answers: Seq<(Seq<char>, Seq<u8>)>, p: PrInfoView)
    ensures
        all_listed(answers).contains(p) <==> exists|i: int|
            0 <= i < answers.len() && listed(
                (#[trigger] answers[i]).0,
                parsed_json_bytes(answers[i].1),
            ).contains(p),
    decreases answers.len(),
{
    if answers.len() > 0 {
        let t = answers.drop_last();
        all_repos_listed(t, p);
        let rest = all_listed(t);
        let last = listed(answers.last().0, parsed_json_bytes(answers.last().1));
        let all = rest + last;
        if rest.contains(p) {
            let k = choose|k: int| 0 <= k < rest.len() && rest[k] == p;
            assert(all[k] == p);
            let i = choose|i: int|
                0 <= i < t.len() && listed(
                    (#[trigger] t[i]).0,
                    parsed_json_bytes(t[i].1),
                ).contains(p);
            assert(answers[i] == t[i]);
        }
        if last.contains(p) {
            let k = choose|k: int| 0 <= k < last.len() && last[k] == p;
            assert(all[rest.len() + k] == p);
            assert(answers[answers.len() - 1] == answers.last());
        }
        if all.contains(p) {
            let k = choose|k: int| 0 <= k < all.len() && all[k] == p;
            if k < rest.len() {
                assert(rest[k] == p);
            } else {
                assert(last[k - rest.len()] == p);
            }
        }
        if exists|i: int|
            0 <= i < answers.len() && listed(
                (#[trigger] answers[i]).0,
                parsed_json_bytes(answers[i].1),
            ).contains(p) {
            let i = choose|i: int|
                0 <= i < answers.len() && listed(
                    (#[trigger] answers[i]).0,
                    parsed_json_bytes(answers[i].1),
                ).contains(p);
            if i < t.len() {
                assert(t[i] == answers[i]);
            }
        }
    }
}

/// An answer that can be read lists what is to be shown of its items; one that is
/// no list, or cannot be read, lists nothing.
pub proof fn listed_items(repo: Seq<char>, answer: Option<JsonView>, p: PrInfoView)
    ensures
        listed(repo, answer).contains(p) ==> answer is Some && answer->0 is Array && all_decoded(
            answer->0->Array_0,
        ) is Some,
        answer is Some && answer->0 is Array && all_decoded(answer->0->Array_0) is Some ==> (listed(
            repo,
            answer,
        ).contains(p) <==> exists|i: int|
            0 <= i < all_decoded(answer->0->Array_0)->0.len() && info_of(
                repo,
                #[trigger] all_decoded(answer->0->Array_0)->0[i],
            ) == Some(p)),
{
    if answer is Some && answer->0 is Array && all_decoded(answer->0->Array_0) is Some {
        shown_items(repo, all_decoded(answer->0->Array_0)->0, p);
    }
}

/// An item may be given as a list too, of its parts in their order: at least the four
/// that it must have, and no more than it can have.
pub proof fn item_by_place(v: Seq<JsonView>, f: Seq<(Seq<char>, JsonView)>)
    ensures
        v.len() < 4 || v.len() > 5 ==> decoded(JsonView::Array(v)) is None,
        v.len() == 5 && entry(f, "number"@) == Some(v[0]) && entry(f, "state"@) == Some(v[1])
            && entry(f, "isDraft"@) == Some(v[2]) && entry(f, "url"@) == Some(v[3]) && entry(
            f,
            "title"@,
        ) == Some(v[4]) ==> decoded(JsonView::Array(v)) == decoded(JsonView::Object(f)),
        v.len() == 4 && entry(f, "number"@) == Some(v[0]) && entry(f, "state"@) == Some(v[1])
            && entry(f, "isDraft"@) == Some(v[2]) && entry(f, "url"@) == Some(v[3]) && entry(
            f,
            "title"@,
        ) is None ==> decoded(JsonView::Array(v)) == decoded(JsonView::Object(f)),
{
}

} // verus!
