//! Diffs as they are shown: each line with its kind, and how much has changed.
use vstd::prelude::*;

use crate::config::{Config, ConfigView, RepoRefView};
use crate::git::{RepoDiff, RepoDiffView};
use crate::table::{entry, Pair, PairTable};
use crate::text::{cat, cat3, decimal, decimal_of, lines, lines_of, own, same, starts_with};

verus! {

/// What a line of a diff is.
#[derive(Debug, Clone, Copy, PartialEq, Eq, Structural)]
pub enum DiffLineKind {
    /// A line about a file, not of it.
    FileHeader,
    /// Where a run of changes begins.
    Hunk,
    /// A line that was added.
    Add,
    /// A line that was removed.
    Del,
    /// A line that stays.
    Context,
}

/// How a line about a file begins.
pub open spec fn is_file_header(line: Seq<char>) -> bool {
    ||| "diff --git"@.is_prefix_of(line)
    ||| "+++"@.is_prefix_of(line)
    ||| "---"@.is_prefix_of(line)
    ||| "index "@.is_prefix_of(line)
    ||| "new file"@.is_prefix_of(line)
    ||| "deleted file"@.is_prefix_of(line)
    ||| "rename "@.is_prefix_of(line)
    ||| "similarity "@.is_prefix_of(line)
    ||| "old mode"@.is_prefix_of(line)
    ||| "new mode"@.is_prefix_of(line)
    ||| "Binary files"@.is_prefix_of(line)
}

/// What a line of a diff is. The headers `+++` and `---` are told from lines that
/// were added or removed.
pub open spec fn kind_of(line: Seq<char>) -> DiffLineKind {
    if is_file_header(line) {
        DiffLineKind::FileHeader
    } else if "@@"@.is_prefix_of(line) {
        DiffLineKind::Hunk
    } else if "+"@.is_prefix_of(line) {
        DiffLineKind::Add
    } else if "-"@.is_prefix_of(line) {
        DiffLineKind::Del
    } else {
        DiffLineKind::Context
    }
}

/// What a line of a diff is.
pub fn classify_diff_line(line: &str) -> (r: DiffLineKind)
    ensures
        r == kind_of(line@),
{
    if starts_with(line, "diff --git") || starts_with(line, "+++") || starts_with(line, "---")
        || starts_with(line, "index ") || starts_with(line, "new file") || starts_with(
        line,
        "deleted file",
    ) || starts_with(line, "rename ") || starts_with(line, "similarity ") || starts_with(
        line,
        "old mode",
    ) || starts_with(line, "new mode") || starts_with(line, "Binary files") {
        DiffLineKind::FileHeader
    } else if starts_with(line, "@@") {
        DiffLineKind::Hunk
    } else if starts_with(line, "+") {
        DiffLineKind::Add
    } else if starts_with(line, "-") {
        DiffLineKind::Del
    } else {
        DiffLineKind::Context
    }
}

/// A diff as it is shown.
#[derive(Debug)]
pub struct DiffView {
    pub base_label: String,
    pub lines: Vec<(DiffLineKind, String)>,
    /// How many files have changed.
    pub files: usize,
    /// How many lines were added.
    pub additions: usize,
    /// How many lines were removed.
    pub deletions: usize,
}

/// The lines with their kinds.
pub open spec fn classified(lines: Seq<Seq<char>>) -> Seq<(DiffLineKind, Seq<char>)> {
    lines.map_values(|l: Seq<char>| (kind_of(l), l))
}

/// How many of the lines are of a kind.
pub open spec fn count_kind(lines: Seq<Seq<char>>, kind: DiffLineKind) -> nat
    decreases lines.len(),
{
    if lines.len() == 0 {
        0
    } else {
        count_kind(lines.drop_last(), kind) + (if kind_of(lines.last()) == kind {
            1nat
        } else {
            0nat
        })
    }
}

/// How many of the lines begin the changes of a file.
pub open spec fn count_files(lines: Seq<Seq<char>>) -> nat
    decreases lines.len(),
{
    if lines.len() == 0 {
        0
    } else {
        count_files(lines.drop_last()) + (if "diff --git"@.is_prefix_of(lines.last()) {
            1nat
        } else {
            0nat
        })
    }
}

proof fn lemma_counts(lines: Seq<Seq<char>>)
    ensures
        count_files(lines) <= lines.len(),
        count_kind(lines, DiffLineKind::Add) <= lines.len(),
        count_kind(lines, DiffLineKind::Del) <= lines.len(),
    decreases lines.len(),
{
    if lines.len() > 0 {
        lemma_counts(lines.drop_last());
    }
}

/// What a [`DiffView`] stands for.
#[verifier::ext_equal]
pub struct DiffModel {
    pub base_label: Seq<char>,
    pub lines: Seq<(DiffLineKind, Seq<char>)>,
    pub files: nat,
    pub additions: nat,
    pub deletions: nat,
}

/// The lines with their kinds.
pub open spec fn lines_model(lines: Seq<(DiffLineKind, String)>) -> Seq<(DiffLineKind, Seq<char>)> {
    lines.map_values(|l: (DiffLineKind, String)| (l.0, l.1@))
}

impl DeepView for DiffView {
    type V = DiffModel;

    open spec fn deep_view(&self) -> DiffModel {
        DiffModel {
            base_label: self.base_label@,
            lines: lines_model(self.lines@),
            files: self.files as nat,
            additions: self.additions as nat,
            deletions: self.deletions as nat,
        }
    }
}

/// A diff as it is shown.
pub open spec fn diff_model(raw: RepoDiffView) -> DiffModel {
    let lines = lines_of(raw.text);
    DiffModel {
        base_label: raw.base_label,
        lines: classified(lines),
        files: count_files(lines),
        additions: count_kind(lines, DiffLineKind::Add),
        deletions: count_kind(lines, DiffLineKind::Del),
    }
}

impl DiffView {
    /// A diff as it is shown, by what git printed.
    pub fn from_raw(raw: RepoDiff) -> (r: DiffView)
        ensures
            r.deep_view() == diff_model(raw.deep_view()),
    {
        let list = lines(raw.text.as_str());
        let ghost v = list.deep_view();
        let mut out: Vec<(DiffLineKind, String)> = Vec::new();
        let mut files: usize = 0;
        let mut additions: usize = 0;
        let mut deletions: usize = 0;
        for i in 0..list.len()
            invariant
                v == list.deep_view(),
                out@.len() == i,
                forall|j: int|
                    0 <= j < i ==> (#[trigger] out@[j]).0 == kind_of(v[j]) && out@[j].1@ == v[j],
                files == count_files(v.take(i as int)),
                additions == count_kind(v.take(i as int), DiffLineKind::Add),
                deletions == count_kind(v.take(i as int), DiffLineKind::Del),
        {
            let line = list[i].as_str();
            proof {
                lemma_counts(v.take(i as int));
                assert(v.take(i + 1).drop_last() =~= v.take(i as int));
                assert(v.take(i + 1).last() == line@);
            }
            let kind = classify_diff_line(line);
            match kind {
                DiffLineKind::Add => {
                    additions = additions + 1;
                },
                DiffLineKind::Del => {
                    deletions = deletions + 1;
                },
                DiffLineKind::FileHeader => {
                    if starts_with(line, "diff --git") {
                        files = files + 1;
                    }
                },
                _ => {},
            }
            out.push((kind, own(line)));
        }
        assert(v.take(v.len() as int) =~= v);
        assert(lines_model(out@) =~= classified(v));
        DiffView { base_label: raw.base_label, lines: out, files, additions, deletions }
    }

    /// What is said above a diff that is not empty: the files, the lines that were
    /// added, and those that were removed.
    pub fn summary(&self) -> (r: (String, String, String))
        ensures
            r.0@ == decimal_of(self.files as nat) + " file"@ + (if self.files == 1 {
                ""@
            } else {
                "s"@
            }),
            r.1@ == "+"@ + decimal_of(self.additions as nat),
            r.2@ == "−"@ + decimal_of(self.deletions as nat),
    {
        let n = decimal(self.files as u64);
        let files = cat3(
            n.as_str(),
            " file",
            if self.files == 1 {
                ""
            } else {
                "s"
            },
        );
        let a = decimal(self.additions as u64);
        let d = decimal(self.deletions as u64);
        (files, cat("+", a.as_str()), cat("−", d.as_str()))
    }

    /// What the changes are relative to.
    pub fn versus(&self) -> (r: String)
        ensures
            r@ == "vs "@ + self.base_label@,
    {
        cat("vs ", self.base_label.as_str())
    }
}

/// No header of a file is counted as a line that was added or removed.
pub proof fn headers_are_not_changes(line: Seq<char>)
    requires
        "+++"@.is_prefix_of(line) || "---"@.is_prefix_of(line),
    ensures
        kind_of(line) != DiffLineKind::Add,
        kind_of(line) != DiffLineKind::Del,
{
}

/// A line of a diff as it is drawn: an empty one still takes up a row.
pub fn shown_line(text: &str) -> (r: String)
    ensures
        r@ == (if text@.len() == 0 {
            " "@
        } else {
            text@
        }),
{
    if text.is_empty() {
        own(" ")
    } else {
        own(text)
    }
}

/// The repo of that name, if there is one.
pub open spec fn repo_named(repos: Seq<RepoRefView>, name: Seq<char>) -> Option<RepoRefView>
    decreases repos.len(),
{
    if repos.len() == 0 {
        None
    } else if repos[0].name == name {
        Some(repos[0])
    } else {
        repo_named(repos.skip(1), name)
    }
}

/// The ref that a repo was branched from, by the same precedence as when it was
/// created: none where its base is gone.
pub open spec fn base_ref(config: ConfigView, base: Seq<char>, repo: Seq<char>) -> Option<Seq<char>> {
    match entry(config.bases, base) {
        None => None,
        Some(b) => Some(
            match (
                match repo_named(b.repos, repo) {
                    Some(r) => r.branch_from,
                    None => None,
                },
                b.branch_from,
            ) {
                (Some(f), _) => f,
                (None, Some(f)) => f,
                (None, None) => config.settings.default_branch_from,
            },
        ),
    }
}

/// The ref that a repo was branched from.
pub fn base_ref_for(config: &Config, base_name: &str, repo_name: &str) -> (r: Option<String>)
    ensures
        r.deep_view() == base_ref(config@, base_name@, repo_name@),
{
    let base = match config.base(base_name) {
        Some(b) => b,
        None => {
            return None;
        },
    };
    let ghost v = base.deep_view().repos;
    let n = base.repos.len();
    let mut i: usize = 0;
    assert(v.skip(0) =~= v);
    while i < n && !same(base.repos[i].name.as_str(), repo_name)
        invariant
            n == base.repos@.len(),
            v == base.deep_view().repos,
            i <= n,
            repo_named(v, repo_name@) == repo_named(v.skip(i as int), repo_name@),
        decreases n - i,
    {
        proof {
            assert(v.skip(i as int)[0] == base.repos@[i as int].deep_view());
            assert(v.skip(i as int).skip(1) =~= v.skip(i + 1));
        }
        i = i + 1;
    }
    if i < n {
        assert(v.skip(i as int)[0] == base.repos@[i as int].deep_view());
        if let Some(f) = &base.repos[i].branch_from {
            return Some(f.clone());
        }
    }
    match &base.branch_from {
        Some(f) => Some(f.clone()),
        None => Some(config.settings.default_branch_from.clone()),
    }
}

/// A diff of a repo of a base is relative to what its branch was started from.
pub proof fn base_ref_is_start_point(config: ConfigView, base: Seq<char>, repo: RepoRefView)
    requires
        entry(config.bases, base) is Some,
        repo_named(entry(config.bases, base)->0.repos, repo.name) == Some(repo),
    ensures
        base_ref(config, base, repo.name) == Some(
            crate::config::start_point_of(repo, entry(config.bases, base)->0, config.settings),
        ),
{
}

// ---------------------------------------------------------------------------
// The diffs that have been made
// ---------------------------------------------------------------------------

/// What came of making a diff.
#[derive(Debug)]
pub enum MadeDiff {
    Shown(DiffView),
    Failed(String),
}

/// What a [`MadeDiff`] stands for.
pub enum MadeDiffModel {
    Shown(DiffModel),
    Failed(Seq<char>),
}

impl DeepView for MadeDiff {
    type V = MadeDiffModel;

    open spec fn deep_view(&self) -> MadeDiffModel {
        match self {
            MadeDiff::Shown(d) => MadeDiffModel::Shown(d.deep_view()),
            MadeDiff::Failed(e) => MadeDiffModel::Failed(e@),
        }
    }
}

/// What came of making a diff, as it is shown.
pub open spec fn made_of(result: Result<RepoDiffView, Seq<char>>) -> MadeDiffModel {
    match result {
        Ok(raw) => MadeDiffModel::Shown(diff_model(raw)),
        Err(e) => MadeDiffModel::Failed(e),
    }
}

/// The diffs that have been made and those that are being made, by workspace and
/// repo.
#[derive(Debug)]
pub struct DiffStore {
    pub made: PairTable<MadeDiff>,
    pub making: PairTable<bool>,
}

/// What a [`DiffStore`] stands for.
#[verifier::ext_equal]
pub struct DiffStoreView {
    pub made: Map<Pair, MadeDiffModel>,
    pub making: Map<Pair, bool>,
}

impl View for DiffStore {
    type V = DiffStoreView;

    open spec fn view(&self) -> DiffStoreView {
        DiffStoreView { made: self.made@, making: self.making@ }
    }
}

impl DiffStoreView {
    /// Whether a diff is to be made now: where it has not been made, or is to be made
    /// anew, and it is not being made.
    pub open spec fn wants(self, key: Pair, anew: bool) -> bool {
        (anew || !self.made.contains_key(key)) && !self.making.contains_key(key)
    }

    /// After a diff has been asked for.
    pub open spec fn requested(self, key: Pair, anew: bool) -> DiffStoreView {
        DiffStoreView {
            made: if anew {
                self.made.remove(key)
            } else {
                self.made
            },
            making: if self.wants(key, anew) {
                self.making.insert(key, true)
            } else {
                self.making
            },
        }
    }

    /// After a diff has been made.
    pub open spec fn finished(self, key: Pair, made: MadeDiffModel) -> DiffStoreView {
        DiffStoreView { made: self.made.insert(key, made), making: self.making.remove(key) }
    }
}

impl DiffStore {
    /// Each is there once.
    pub open spec fn wf(&self) -> bool {
        self.made.wf() && self.making.wf()
    }

    /// With no diffs.
    pub fn new() -> (r: DiffStore)
        ensures
            r.wf(),
            r.made@ == Map::<Pair, MadeDiffModel>::empty(),
            r.making@ == Map::<Pair, bool>::empty(),
    {
        DiffStore { made: PairTable::new(), making: PairTable::new() }
    }

    /// Whether the diff of a repo is to be made now, as it is shown: where it has
    /// not been made, or is to be made anew, and it is not being made. It is being
    /// made from then on.
    pub fn request(&mut self, ws: &str, repo: &str, anew: bool) -> (r: bool)
        requires
            old(self).wf(),
        ensures
            final(self).wf(),
            r == old(self)@.wants((ws@, repo@), anew),
            final(self)@ == old(self)@.requested((ws@, repo@), anew),
    {
        if anew {
            self.made.remove(ws, repo);
        }
        if self.made.get(ws, repo).is_none() && self.making.get(ws, repo).is_none() {
            self.making.insert(own(ws), own(repo), true);
            true
        } else {
            false
        }
    }

    /// Takes in a diff that has been made.
    pub fn finish(&mut self, ws: String, repo: String, result: Result<RepoDiff, String>)
        requires
            old(self).wf(),
        ensures
            final(self).wf(),
            final(self)@ == old(self)@.finished(
                (ws@, repo@),
                made_of(
                    match result {
                        Ok(raw) => Ok(raw.deep_view()),
                        Err(e) => Err(e@),
                    },
                ),
            ),
    {
        self.making.remove(ws.as_str(), repo.as_str());
        let shown = match result {
            Ok(raw) => MadeDiff::Shown(DiffView::from_raw(raw)),
            Err(e) => MadeDiff::Failed(e),
        };
        self.made.insert(ws, repo, shown);
    }

    /// Forgets the diffs that have been made.
    pub fn clear(&mut self)
        requires
            old(self).wf(),
        ensures
            final(self).wf(),
            final(self).made@ == Map::<Pair, MadeDiffModel>::empty(),
            final(self).making@ == old(self).making@,
    {
        self.made = PairTable::new();
    }
}

/// The repo whose diff is shown: the one that was chosen, or the last where there
/// are fewer now; none where there is none.
pub fn shown_repo(chosen: Option<usize>, repos: usize) -> (r: Option<usize>)
    ensures
        r == (if repos == 0 {
            None
        } else {
            match chosen {
                Some(i) => Some(
                    if i < repos {
                        i
                    } else {
                        (repos - 1) as usize
                    },
                ),
                None => Some(0),
            }
        }),
{
    if repos == 0 {
        return None;
    }
    match chosen {
        Some(i) => if i < repos {
            Some(i)
        } else {
            Some(repos - 1)
        },
        None => Some(0),
    }
}

/// A line of a diff is what its beginning says: added behind a plus, removed behind a
/// minus, the beginning of a run of changes behind two at signs, and a line that
/// stays behind a blank. What is added or removed may itself begin with anything
/// but the rest of a header's sign.
pub proof fn lines_by_sign(x: Seq<char>)
    ensures
        !"++"@.is_prefix_of(x) ==> kind_of("+"@ + x) == DiffLineKind::Add,
        !"--"@.is_prefix_of(x) ==> kind_of("-"@ + x) == DiffLineKind::Del,
        kind_of("@@"@ + x) == DiffLineKind::Hunk,
        kind_of(" "@ + x) == DiffLineKind::Context,
        kind_of(Seq::empty()) == DiffLineKind::Context,
{
    lemma_first_chars();
    reveal_strlit("+");
    reveal_strlit("-");
    reveal_strlit("++");
    reveal_strlit("--");
    reveal_strlit("+++");
    reveal_strlit("---");
    reveal_strlit("@@");
    reveal_strlit(" ");
    let none: Seq<char> = Seq::empty();
    let (a, d, h, c) = ("+"@ + x, "-"@ + x, "@@"@ + x, " "@ + x);
    assert(a[0] == '+' && d[0] == '-' && h[0] == '@' && c[0] == ' ');
    assert("+"@ =~= a.take(1));
    assert("-"@ =~= d.take(1));
    assert("@@"@ =~= h.take(2));
    lemma_no_header(h);
    lemma_no_header(c);
    assert(!is_file_header(none));
    if "+++"@.is_prefix_of(a) {
        assert(a.take(3)[1] == '+' && a.take(3)[2] == '+');
        assert("++"@ =~= x.take(2));
    }
    if "---"@.is_prefix_of(d) {
        assert(d.take(3)[1] == '-' && d.take(3)[2] == '-');
        assert("--"@ =~= x.take(2));
    }
    lemma_no_word_header(a);
    lemma_no_word_header(d);
    if "@@"@.is_prefix_of(a) {
        assert(a.take(2)[0] == '@');
    }
    if "@@"@.is_prefix_of(d) {
        assert(d.take(2)[0] == '@');
    }
    if "+"@.is_prefix_of(d) {
        assert(d.take(1)[0] == '+');
    }
    if "@@"@.is_prefix_of(c) {
        assert(c.take(2)[0] == '@');
    }
    if "+"@.is_prefix_of(c) {
        assert(c.take(1)[0] == '+');
    }
    if "-"@.is_prefix_of(c) {
        assert(c.take(1)[0] == '-');
    }
}

/// With what the lines about a file begin.
proof fn lemma_first_chars()
    ensures
        "diff --git"@[0] == 'd' && "diff --git"@.len() == 10,
        "index "@[0] == 'i' && "index "@.len() == 6,
        "new file"@[0] == 'n' && "new file"@.len() == 8,
        "deleted file"@[0] == 'd' && "deleted file"@.len() == 12,
        "rename "@[0] == 'r' && "rename "@.len() == 7,
        "similarity "@[0] == 's' && "similarity "@.len() == 11,
        "old mode"@[0] == 'o' && "old mode"@.len() == 8,
        "new mode"@[0] == 'n' && "new mode"@.len() == 8,
        "Binary files"@[0] == 'B' && "Binary files"@.len() == 12,
        "+++"@[0] == '+' && "+++"@.len() == 3,
        "---"@[0] == '-' && "---"@.len() == 3,
{
    reveal_strlit("diff --git");
    reveal_strlit("index ");
    reveal_strlit("new file");
    reveal_strlit("deleted file");
    reveal_strlit("rename ");
    reveal_strlit("similarity ");
    reveal_strlit("old mode");
    reveal_strlit("new mode");
    reveal_strlit("Binary files");
    reveal_strlit("+++");
    reveal_strlit("---");
}

proof fn lemma_begins(p: Seq<char>, line: Seq<char>)
    requires
        p.len() > 0,
        p.is_prefix_of(line),
    ensures
        line.len() > 0 && line[0] == p[0],
{
    assert(line.take(p.len() as int)[0] == line[0]);
}

proof fn lemma_no_word_header(line: Seq<char>)
    requires
        line.len() > 0,
        line[0] == '+' || line[0] == '-' || line[0] == '@' || line[0] == ' ',
    ensures
        is_file_header(line) ==> "+++"@.is_prefix_of(line) || "---"@.is_prefix_of(line),
{
    lemma_first_chars();
    if is_file_header(line) && !"+++"@.is_prefix_of(line) && !"---"@.is_prefix_of(line) {
        let p = if "diff --git"@.is_prefix_of(line) {
            "diff --git"@
        } else if "index "@.is_prefix_of(line) {
            "index "@
        } else if "new file"@.is_prefix_of(line) {
            "new file"@
        } else if "deleted file"@.is_prefix_of(line) {
            "deleted file"@
        } else if "rename "@.is_prefix_of(line) {
            "rename "@
        } else if "similarity "@.is_prefix_of(line) {
            "similarity "@
        } else if "old mode"@.is_prefix_of(line) {
            "old mode"@
        } else if "new mode"@.is_prefix_of(line) {
            "new mode"@
        } else {
            "Binary files"@
        };
        lemma_begins(p, line);
    }
}

proof fn lemma_no_header(line: Seq<char>)
    requires
        line.len() > 0,
        line[0] == '@' || line[0] == ' ',
    ensures
        !is_file_header(line),
{
    lemma_first_chars();
    lemma_no_word_header(line);
    if "+++"@.is_prefix_of(line) {
        lemma_begins("+++"@, line);
    }
    if "---"@.is_prefix_of(line) {
        lemma_begins("---"@, line);
    }
}

/// Every line that git writes about a file is one about it, whatever follows.
pub proof fn lines_about_files(x: Seq<char>)
    ensures
        kind_of("diff --git"@ + x) == DiffLineKind::FileHeader,
        kind_of("+++"@ + x) == DiffLineKind::FileHeader,
        kind_of("---"@ + x) == DiffLineKind::FileHeader,
        kind_of("index "@ + x) == DiffLineKind::FileHeader,
        kind_of("new file"@ + x) == DiffLineKind::FileHeader,
        kind_of("deleted file"@ + x) == DiffLineKind::FileHeader,
        kind_of("rename "@ + x) == DiffLineKind::FileHeader,
        kind_of("similarity "@ + x) == DiffLineKind::FileHeader,
        kind_of("old mode"@ + x) == DiffLineKind::FileHeader,
        kind_of("new mode"@ + x) == DiffLineKind::FileHeader,
        kind_of("Binary files"@ + x) == DiffLineKind::FileHeader,
{
    assert forall|p: Seq<char>| p.is_prefix_of(#[trigger] (p + x)) by {
        assert(p =~= (p + x).take(p.len() as int));
    }
    assert("diff --git"@.is_prefix_of("diff --git"@ + x));
    assert("+++"@.is_prefix_of("+++"@ + x));
    assert("---"@.is_prefix_of("---"@ + x));
    assert("index "@.is_prefix_of("index "@ + x));
    assert("new file"@.is_prefix_of("new file"@ + x));
    assert("deleted file"@.is_prefix_of("deleted file"@ + x));
    assert("rename "@.is_prefix_of("rename "@ + x));
    assert("similarity "@.is_prefix_of("similarity "@ + x));
    assert("old mode"@.is_prefix_of("old mode"@ + x));
    assert("new mode"@.is_prefix_of("new mode"@ + x));
    assert("Binary files"@.is_prefix_of("Binary files"@ + x));
}

/// A diff is shown line by line, each with its kind, and counts what it shows: the
/// lines that were added, those that were removed, and the files.
pub proof fn diff_counts(raw: RepoDiffView, i: int)
    ensures
        ({
            let m = diff_model(raw);
            let lines = lines_of(raw.text);
            &&& m.base_label == raw.base_label
            &&& m.lines.len() == lines.len()
            &&& 0 <= i < lines.len() ==> m.lines[i] == (kind_of(lines[i]), lines[i])
            &&& m.additions == m.lines.filter(
                |l: (DiffLineKind, Seq<char>)| l.0 == DiffLineKind::Add,
            ).len()
            &&& m.deletions == m.lines.filter(
                |l: (DiffLineKind, Seq<char>)| l.0 == DiffLineKind::Del,
            ).len()
            &&& m.files == lines.filter(|l: Seq<char>| "diff --git"@.is_prefix_of(l)).len()
        }),
{
    let lines = lines_of(raw.text);
    lemma_counted(lines, DiffLineKind::Add);
    lemma_counted(lines, DiffLineKind::Del);
    lemma_files_counted(lines);
}

proof fn lemma_counted(lines: Seq<Seq<char>>, kind: DiffLineKind)
    ensures
        count_kind(lines, kind) == classified(lines).filter(
            |l: (DiffLineKind, Seq<char>)| l.0 == kind,
        ).len(),
    decreases lines.len(),
{
    reveal(Seq::filter);
    if lines.len() > 0 {
        lemma_counted(lines.drop_last(), kind);
        assert(classified(lines).drop_last() =~= classified(lines.drop_last()));
        assert(classified(lines).last() == (kind_of(lines.last()), lines.last()));
    }
}

proof fn lemma_files_counted(lines: Seq<Seq<char>>)
    ensures
        count_files(lines) == lines.filter(|l: Seq<char>| "diff --git"@.is_prefix_of(l)).len(),
    decreases lines.len(),
{
    reveal(Seq::filter);
    if lines.len() > 0 {
        lemma_files_counted(lines.drop_last());
    }
}

/// A repo is found by its name, the first of that name.
pub proof fn repo_by_name(repos: Seq<RepoRefView>, name: Seq<char>, i: int)
    requires
        0 <= i < repos.len(),
        repos[i].name == name,
        forall|k: int| 0 <= k < i ==> (#[trigger] repos[k]).name != name,
    ensures
        repo_named(repos, name) == Some(repos[i]),
    decreases i,
{
    if i > 0 {
        assert(repos[0].name != name);
        let t = repos.skip(1);
        assert(t[i - 1] == repos[i]);
        assert forall|k: int| 0 <= k < i - 1 implies (#[trigger] t[k]).name != name by {
            assert(t[k] == repos[k + 1]);
        }
        repo_by_name(t, name, i - 1);
    }
}

/// A diff is made once at a time: it is not asked for again while it is being made,
/// nor once it is there, unless it is to be made anew. What came of it is there
/// afterwards, and can be made anew. The diffs of other repos and workspaces stay as
/// they are.
pub proof fn one_diff_at_a_time(
    s: DiffStoreView,
    key: Pair,
    anew: bool,
    again: bool,
    made: MadeDiffModel,
    other: Pair,
)
    requires
        other != key,
    ensures
        s.wants(key, anew) ==> !s.requested(key, anew).wants(key, again),
        s.making.contains_key(key) ==> !s.wants(key, anew),
        !s.made.contains_key(key) && !s.making.contains_key(key) ==> s.wants(key, anew),
        s.finished(key, made).made.contains_key(key) && s.finished(key, made).made[key] == made,
        !s.finished(key, made).wants(key, false),
        s.finished(key, made).wants(key, true),
        s.requested(key, anew).wants(other, again) == s.wants(other, again),
        s.finished(key, made).wants(other, again) == s.wants(other, again),
        s.made.contains_key(other) ==> s.requested(key, anew).made[other] == s.made[other] && s.finished(
            key,
            made,
        ).made[other] == s.made[other],
{
}

/// What came of making a diff is shown as it is: the diff, or why there is none.
pub proof fn made_as_it_came(raw: RepoDiffView, e: Seq<char>)
    ensures
        made_of(Ok(raw)) == MadeDiffModel::Shown(diff_model(raw)),
        made_of(Err(e)) == MadeDiffModel::Failed(e),
{
}

} // verus!
