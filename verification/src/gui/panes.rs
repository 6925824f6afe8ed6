//! The terminals of the window, and which of them is shown.
use vstd::prelude::*;

use crate::paths::{file_name, file_name_of};
use crate::session::names;
use crate::table::{entry, find_entry, ordered, put, put_entry, put_law};
use crate::text::{
    among, cat, chars_of, decimal, decimal_law, decimal_of, own, same, trim, trimmed,
};
use crate::workspace::{WorkspaceConfig, WorkspaceConfigView};

verus! {

// ---------------------------------------------------------------------------
// The tabs of a workspace
// ---------------------------------------------------------------------------

/// A terminal: its number, the title that its shell gave it, and the name that
/// the user gave it, where they did.
#[derive(Debug)]
pub struct TermTab {
    pub id: u64,
    pub title: String,
    pub custom_name: Option<String>,
}

/// What a [`TermTab`] stands for.
#[verifier::ext_equal]
pub struct TermTabView {
    pub id: u64,
    pub title: Seq<char>,
    pub custom_name: Option<Seq<char>>,
}

impl DeepView for TermTab {
    type V = TermTabView;

    open spec fn deep_view(&self) -> TermTabView {
        TermTabView {
            id: self.id,
            title: self.title@,
            custom_name: self.custom_name.deep_view(),
        }
    }
}

impl TermTabView {
    /// What a terminal is called: by the user, else by its shell.
    pub open spec fn name(self) -> Seq<char> {
        match self.custom_name {
            Some(n) => n,
            None => self.title,
        }
    }
}

impl TermTab {
    /// A terminal that has just been opened: until its shell gives it a title, it
    /// has the name of the shell.
    pub fn new(id: u64, shell: &str) -> (r: TermTab)
        ensures
            r.deep_view() == (TermTabView {
                id,
                title: match file_name_of(shell@) {
                    Some(n) => n,
                    None => "shell"@,
                },
                custom_name: None,
            }),
    {
        let title = match file_name(shell) {
            Some(n) => n,
            None => own("shell"),
        };
        TermTab { id, title, custom_name: None }
    }

    /// What the terminal is called.
    pub fn display_name(&self) -> (r: String)
        ensures
            r@ == self.deep_view().name(),
    {
        match &self.custom_name {
            Some(n) => n.clone(),
            None => self.title.clone(),
        }
    }
}

/// A name that is being typed in for a terminal.
#[derive(Debug)]
pub struct Renaming {
    pub id: u64,
    pub buffer: String,
    /// Whether the field has yet to get the keyboard.
    pub focus: bool,
}

/// What a [`Renaming`] stands for.
#[verifier::ext_equal]
pub struct RenamingView {
    pub id: u64,
    pub buffer: Seq<char>,
    pub focus: bool,
}

impl DeepView for Renaming {
    type V = RenamingView;

    open spec fn deep_view(&self) -> RenamingView {
        RenamingView { id: self.id, buffer: self.buffer@, focus: self.focus }
    }
}

/// The terminals of a workspace, and which of them is in front.
#[derive(Debug)]
pub struct WorkspaceTerminals {
    pub tabs: Vec<TermTab>,
    pub active: usize,
}

/// What a [`WorkspaceTerminals`] stands for.
#[verifier::ext_equal]
pub struct TabsView {
    pub tabs: Seq<TermTabView>,
    pub active: usize,
}

impl DeepView for WorkspaceTerminals {
    type V = TabsView;

    open spec fn deep_view(&self) -> TabsView {
        TabsView { tabs: self.tabs.deep_view(), active: self.active }
    }
}

/// The first terminal with a number.
pub open spec fn tab_at(tabs: Seq<TermTabView>, id: u64) -> Option<int>
    decreases tabs.len(),
{
    if tabs.len() == 0 {
        None
    } else if tabs[0].id == id {
        Some(0int)
    } else {
        match tab_at(tabs.skip(1), id) {
            Some(i) => Some(i + 1),
            None => None,
        }
    }
}

/// The index in front, no further than the last.
pub open spec fn clamped(active: usize, n: nat) -> usize {
    if n > 0 && active >= n {
        (n - 1) as usize
    } else {
        active
    }
}

impl TabsView {
    /// The terminal in front is one that there is.
    pub open spec fn in_range(self) -> bool {
        self.tabs.len() == 0 || self.active < self.tabs.len()
    }

    /// Without the terminal at an index.
    pub open spec fn without_at(self, i: int) -> TabsView {
        if 0 <= i < self.tabs.len() {
            TabsView {
                tabs: self.tabs.remove(i),
                active: clamped(self.active, (self.tabs.len() - 1) as nat),
            }
        } else {
            self
        }
    }

    /// Without the terminal with a number.
    pub open spec fn without_id(self, id: u64) -> TabsView {
        match tab_at(self.tabs, id) {
            Some(i) => self.without_at(i),
            None => self,
        }
    }

    /// With one more terminal, in front.
    pub open spec fn with_tab(self, tab: TermTabView) -> TabsView {
        TabsView { tabs: self.tabs.push(tab), active: self.tabs.len() as usize }
    }

    /// With another title for the terminal with a number.
    pub open spec fn titled(self, id: u64, title: Seq<char>) -> TabsView {
        match tab_at(self.tabs, id) {
            Some(i) => TabsView {
                tabs: self.tabs.update(i, TermTabView { title, ..self.tabs[i] }),
                ..self
            },
            None => self,
        }
    }

    /// With another name for the terminal with a number: an empty one is none.
    pub open spec fn renamed(self, id: u64, name: Seq<char>) -> TabsView {
        match tab_at(self.tabs, id) {
            Some(i) => TabsView {
                tabs: self.tabs.update(
                    i,
                    TermTabView {
                        custom_name: if trimmed(name).len() > 0 {
                            Some(trimmed(name))
                        } else {
                            None
                        },
                        ..self.tabs[i]
                    },
                ),
                ..self
            },
            None => self,
        }
    }
}

/// Where there is a terminal with a number, that is where it is.
pub proof fn lemma_tab_at(tabs: Seq<TermTabView>, id: u64)
    ensures
        match tab_at(tabs, id) {
            Some(i) => 0 <= i < tabs.len() && tabs[i].id == id && forall|j: int|
                0 <= j < i ==> (#[trigger] tabs[j]).id != id,
            None => forall|j: int| 0 <= j < tabs.len() ==> (#[trigger] tabs[j]).id != id,
        },
    decreases tabs.len(),
{
    if tabs.len() > 0 && tabs[0].id != id {
        let t = tabs.skip(1);
        lemma_tab_at(t, id);
        match tab_at(t, id) {
            Some(k) => {
                assert(tabs[k + 1] == t[k]);
                assert forall|j: int| 0 <= j < k + 1 implies (#[trigger] tabs[j]).id != id by {
                    if j > 0 {
                        assert(t[j - 1] == tabs[j]);
                    }
                }
            },
            None => {
                assert forall|j: int| 0 <= j < tabs.len() implies (#[trigger] tabs[j]).id != id by {
                    if j > 0 {
                        assert(t[j - 1] == tabs[j]);
                    }
                }
            },
        }
    }
}

impl WorkspaceTerminals {
    /// With one terminal.
    pub fn open(tab: TermTab) -> (r: WorkspaceTerminals)
        ensures
            r.deep_view() == (TabsView { tabs: seq![tab.deep_view()], active: 0 }),
    {
        let ghost t = tab.deep_view();
        let mut tabs: Vec<TermTab> = Vec::new();
        tabs.push(tab);
        assert(tabs.deep_view() =~= seq![t]);
        WorkspaceTerminals { tabs, active: 0 }
    }

    /// Where the terminal with a number is.
    pub fn position(&self, id: u64) -> (r: Option<usize>)
        ensures
            match r {
                Some(i) => tab_at(self.deep_view().tabs, id) == Some(i as int) && i
                    < self.tabs@.len(),
                None => tab_at(self.deep_view().tabs, id) is None,
            },
    {
        let ghost v = self.deep_view().tabs;
        proof {
            lemma_tab_at(v, id);
        }
        for i in 0..self.tabs.len()
            invariant
                v == self.deep_view().tabs,
                match tab_at(v, id) {
                    Some(i) => 0 <= i < v.len() && v[i].id == id && forall|j: int|
                        0 <= j < i ==> (#[trigger] v[j]).id != id,
                    None => forall|j: int| 0 <= j < v.len() ==> (#[trigger] v[j]).id != id,
                },
                forall|j: int| 0 <= j < i ==> (#[trigger] v[j]).id != id,
        {
            assert(v[i as int].id == self.tabs@[i as int].id);
            if self.tabs[i].id == id {
                return Some(i);
            }
        }
        None
    }

    /// Closes the terminal at an index.
    pub fn close(&mut self, i: usize)
        ensures
            final(self).deep_view() == old(self).deep_view().without_at(i as int),
    {
        let ghost v = self.deep_view();
        if i < self.tabs.len() {
            self.tabs.remove(i);
            assert(self.tabs.deep_view() =~= v.tabs.remove(i as int));
            if self.tabs.len() > 0 && self.active >= self.tabs.len() {
                self.active = self.tabs.len() - 1;
            }
        }
    }

    /// Adds a terminal and puts it in front.
    pub fn add(&mut self, tab: TermTab)
        ensures
            final(self).deep_view() == old(self).deep_view().with_tab(tab.deep_view()),
    {
        let ghost v = self.deep_view();
        let ghost t = tab.deep_view();
        let n = self.tabs.len();
        self.tabs.push(tab);
        assert(self.tabs.deep_view() =~= v.tabs.push(t));
        self.active = n;
    }

    /// Gives the terminal with a number another title.
    pub fn set_title(&mut self, id: u64, title: String)
        ensures
            final(self).deep_view() == old(self).deep_view().titled(id, title@),
    {
        let ghost v = self.deep_view();
        if let Some(i) = self.position(id) {
            let ghost t = title@;
            let tab = self.tabs.remove(i);
            let ghost x = tab.deep_view();
            assert(x == v.tabs[i as int]);
            self.tabs.insert(i, TermTab { id: tab.id, title, custom_name: tab.custom_name });
            assert(self.tabs.deep_view() =~= v.tabs.update(
                i as int,
                TermTabView { title: t, ..v.tabs[i as int] },
            ));
        }
    }

    /// Gives the terminal with a number the name that was typed in.
    pub fn rename(&mut self, id: u64, name: &str)
        ensures
            final(self).deep_view() == old(self).deep_view().renamed(id, name@),
    {
        let ghost v = self.deep_view();
        if let Some(i) = self.position(id) {
            let n = trim(name);
            let cs = chars_of(n.as_str());
            let custom_name = if cs.len() > 0 {
                Some(n)
            } else {
                None
            };
            let ghost c = custom_name.deep_view();
            let tab = self.tabs.remove(i);
            let ghost x = tab.deep_view();
            assert(x == v.tabs[i as int]);
            self.tabs.insert(i, TermTab { id: tab.id, title: tab.title, custom_name });
            assert(self.tabs.deep_view() =~= v.tabs.update(
                i as int,
                TermTabView { custom_name: c, ..v.tabs[i as int] },
            ));
        }
    }
}

/// What the user did to the tabs of a workspace in a frame.
#[derive(Debug)]
pub struct TabIntents {
    pub activate: Option<usize>,
    pub close: Option<usize>,
    pub start_rename: Option<u64>,
    pub commit_rename: bool,
    pub cancel_rename: bool,
}

/// What is being renamed after a name was accepted or given up, or another
/// terminal is to be renamed.
pub open spec fn renaming_after(
    t: TabsView,
    renaming: Option<RenamingView>,
    start: Option<u64>,
    commit: bool,
    cancel: bool,
) -> Option<RenamingView> {
    let left = if commit || cancel {
        None
    } else {
        renaming
    };
    match start {
        Some(id) => match tab_at(t.tabs, id) {
            Some(i) => Some(RenamingView { id, buffer: t.tabs[i].name(), focus: true }),
            None => left,
        },
        None => left,
    }
}

/// The tabs after a name was accepted.
pub open spec fn after_commit(t: TabsView, renaming: Option<RenamingView>, commit: bool) -> TabsView {
    match renaming {
        Some(r) => if commit {
            t.renamed(r.id, r.buffer)
        } else {
            t
        },
        None => t,
    }
}

/// The tabs with another one in front.
pub open spec fn after_activate(t: TabsView, activate: Option<usize>) -> TabsView {
    match activate {
        Some(i) => TabsView { active: clamped(i, t.tabs.len()), ..t },
        None => TabsView { active: clamped(t.active, t.tabs.len()), ..t },
    }
}

/// What is being renamed after a terminal was closed: not that one.
pub open spec fn renaming_after_close(
    t: TabsView,
    renaming: Option<RenamingView>,
    close: Option<usize>,
) -> Option<RenamingView> {
    match (close, renaming) {
        (Some(i), Some(r)) => if i < t.tabs.len() && t.tabs[i as int].id == r.id {
            None
        } else {
            renaming
        },
        _ => renaming,
    }
}

impl WorkspaceTerminals {
    /// Does what was asked for before the terminal in front is drawn: names, and
    /// which one is in front. Gives what is being renamed from then on.
    pub fn before_drawing(&mut self, renaming: Option<Renaming>, intents: &TabIntents) -> (r: Option<
        Renaming,
    >)
        ensures
            final(self).deep_view() == after_activate(
                after_commit(old(self).deep_view(), renaming.deep_view(), intents.commit_rename),
                intents.activate,
            ),
            r.deep_view() == renaming_after(
                after_commit(old(self).deep_view(), renaming.deep_view(), intents.commit_rename),
                renaming.deep_view(),
                intents.start_rename,
                intents.commit_rename,
                intents.cancel_rename,
            ),
    {
        let ghost v = self.deep_view();
        let mut left = renaming;
        if intents.commit_rename {
            if let Some(r) = left {
                self.rename(r.id, r.buffer.as_str());
            }
            left = None;
        }
        if intents.cancel_rename {
            left = None;
        }
        assert(self.deep_view() == after_commit(v, renaming.deep_view(), intents.commit_rename));
        if let Some(id) = intents.start_rename {
            if let Some(i) = self.position(id) {
                let ghost t = self.deep_view().tabs[i as int];
                assert(t == self.tabs@[i as int].deep_view());
                let buffer = self.tabs[i].display_name();
                left = Some(Renaming { id, buffer, focus: true });
            }
        }
        if let Some(i) = intents.activate {
            self.active = i;
        }
        if self.tabs.len() > 0 && self.active >= self.tabs.len() {
            self.active = self.tabs.len() - 1;
        }
        left
    }

    /// Does what was asked for after the terminal in front has been drawn: closes
    /// one. Gives what is being renamed from then on.
    pub fn after_drawing(&mut self, renaming: Option<Renaming>, close: Option<usize>) -> (r: Option<
        Renaming,
    >)
        ensures
            final(self).deep_view() == (match close {
                Some(i) => old(self).deep_view().without_at(i as int),
                None => old(self).deep_view(),
            }),
            r.deep_view() == renaming_after_close(
                old(self).deep_view(),
                renaming.deep_view(),
                close,
            ),
    {
        let mut left = renaming;
        if let Some(i) = close {
            if i < self.tabs.len() {
                let ghost v = self.deep_view();
                assert(v.tabs[i as int].id == self.tabs@[i as int].id);
                let same_tab = match &left {
                    Some(r) => r.id == self.tabs[i].id,
                    None => false,
                };
                if same_tab {
                    left = None;
                }
            }
            self.close(i);
        }
        left
    }
}

/// Closing and adding keep the terminal in front one that there is.
pub proof fn tabs_stay_in_range(t: TabsView, i: int, tab: TermTabView)
    requires
        t.in_range(),
        t.tabs.len() < usize::MAX,
    ensures
        t.without_at(i).in_range(),
        t.with_tab(tab).in_range(),
        after_activate(t, Some(i as usize)).in_range(),
{
}

// ---------------------------------------------------------------------------
// All the terminals
// ---------------------------------------------------------------------------

/// A terminal that belongs to no workspace.
#[derive(Debug)]
pub struct ScratchTerminal {
    pub name: String,
    pub tab: TermTab,
}

/// What a [`ScratchTerminal`] stands for.
#[verifier::ext_equal]
pub struct ScratchView {
    pub name: Seq<char>,
    pub tab: TermTabView,
}

impl DeepView for ScratchTerminal {
    type V = ScratchView;

    open spec fn deep_view(&self) -> ScratchView {
        ScratchView { name: self.name@, tab: self.tab.deep_view() }
    }
}

/// What the window shows: a workspace by its name, or a terminal by its number.
#[derive(Debug)]
pub enum Selection {
    Workspace(String),
    Scratch(u64),
}

/// What a [`Selection`] stands for.
pub enum SelectionView {
    Workspace(Seq<char>),
    Scratch(u64),
}

impl DeepView for Selection {
    type V = SelectionView;

    open spec fn deep_view(&self) -> SelectionView {
        match self {
            Selection::Workspace(n) => SelectionView::Workspace(n@),
            Selection::Scratch(id) => SelectionView::Scratch(*id),
        }
    }
}

/// All the terminals, and what is shown.
#[derive(Debug)]
pub struct Panes {
    /// The terminals by workspace, ascending.
    pub terminals: Vec<(String, WorkspaceTerminals)>,
    pub scratch: Vec<ScratchTerminal>,
    pub renaming: Option<Renaming>,
    pub selected: Option<Selection>,
    pub next_id: u64,
    pub next_scratch: u32,
}

/// What [`Panes`] stand for.
#[verifier::ext_equal]
pub struct PanesView {
    pub terminals: Seq<(Seq<char>, TabsView)>,
    pub scratch: Seq<ScratchView>,
    pub renaming: Option<RenamingView>,
    pub selected: Option<SelectionView>,
    pub next_id: u64,
    pub next_scratch: u32,
}

impl View for Panes {
    type V = PanesView;

    open spec fn view(&self) -> PanesView {
        PanesView {
            terminals: self.terminals.deep_view(),
            scratch: self.scratch.deep_view(),
            renaming: self.renaming.deep_view(),
            selected: self.selected.deep_view(),
            next_id: self.next_id,
            next_scratch: self.next_scratch,
        }
    }
}

/// The first workspace that has the terminal with a number.
pub open spec fn owner(list: Seq<(Seq<char>, TabsView)>, id: u64) -> Option<int>
    decreases list.len(),
{
    if list.len() == 0 {
        None
    } else if tab_at(list[0].1.tabs, id) is Some {
        Some(0int)
    } else {
        match owner(list.skip(1), id) {
            Some(i) => Some(i + 1),
            None => None,
        }
    }
}

/// The first terminal of no workspace with a number.
pub open spec fn scratch_at(list: Seq<ScratchView>, id: u64) -> Option<int>
    decreases list.len(),
{
    if list.len() == 0 {
        None
    } else if list[0].tab.id == id {
        Some(0int)
    } else {
        match scratch_at(list.skip(1), id) {
            Some(i) => Some(i + 1),
            None => None,
        }
    }
}

impl PanesView {
    /// Without the terminal with a number, wherever it is. What names it goes
    /// too: a name that is being typed in, and what is shown.
    pub open spec fn without_id(self, id: u64) -> PanesView {
        let p = PanesView {
            renaming: match self.renaming {
                Some(r) => if r.id == id {
                    None
                } else {
                    Some(r)
                },
                None => None,
            },
            ..self
        };
        match owner(self.terminals, id) {
            Some(k) => PanesView {
                terminals: self.terminals.update(
                    k,
                    (self.terminals[k].0, self.terminals[k].1.without_id(id)),
                ),
                ..p
            },
            None => match scratch_at(self.scratch, id) {
                Some(j) => PanesView {
                    scratch: self.scratch.remove(j),
                    selected: if self.selected == Some(SelectionView::Scratch(id)) {
                        None
                    } else {
                        self.selected
                    },
                    ..p
                },
                None => p,
            },
        }
    }

    /// With another title for the terminal with a number, wherever it is.
    pub open spec fn titled(self, id: u64, title: Seq<char>) -> PanesView {
        match owner(self.terminals, id) {
            Some(k) => PanesView {
                terminals: self.terminals.update(
                    k,
                    (self.terminals[k].0, self.terminals[k].1.titled(id, title)),
                ),
                ..self
            },
            None => match scratch_at(self.scratch, id) {
                Some(j) => PanesView {
                    scratch: self.scratch.update(
                        j,
                        ScratchView {
                            tab: TermTabView { title, ..self.scratch[j].tab },
                            ..self.scratch[j]
                        },
                    ),
                    ..self
                },
                None => self,
            },
        }
    }

    /// With another name for the terminal of no workspace with a number: an empty
    /// one is not taken.
    pub open spec fn scratch_renamed(self, id: u64, name: Seq<char>) -> PanesView {
        match scratch_at(self.scratch, id) {
            Some(j) => if trimmed(name).len() > 0 {
                PanesView {
                    scratch: self.scratch.update(
                        j,
                        ScratchView { name: trimmed(name), ..self.scratch[j] },
                    ),
                    ..self
                }
            } else {
                self
            },
            None => self,
        }
    }

    /// With a new terminal of no workspace, which is shown.
    pub open spec fn with_scratch(self, tab: TermTabView) -> PanesView {
        PanesView {
            scratch: self.scratch.push(
                ScratchView {
                    name: "Terminal "@ + decimal_of(self.next_scratch as nat),
                    tab,
                },
            ),
            selected: Some(SelectionView::Scratch(tab.id)),
            next_scratch: (self.next_scratch + 1) as u32,
            ..self
        }
    }

    /// Whether a number is that of a terminal.
    pub open spec fn uses(self, id: u64) -> bool {
        owner(self.terminals, id) is Some || scratch_at(self.scratch, id) is Some
    }

    /// Every terminal has a number below the next one.
    pub open spec fn numbered(self) -> bool {
        forall|id: u64| #[trigger] self.uses(id) ==> id < self.next_id
    }
}

proof fn lemma_owner(list: Seq<(Seq<char>, TabsView)>, id: u64)
    ensures
        match owner(list, id) {
            Some(i) => 0 <= i < list.len() && tab_at(list[i].1.tabs, id) is Some && forall|j: int|
                0 <= j < i ==> tab_at((#[trigger] list[j]).1.tabs, id) is None,
            None => forall|j: int|
                0 <= j < list.len() ==> tab_at((#[trigger] list[j]).1.tabs, id) is None,
        },
    decreases list.len(),
{
    if list.len() > 0 && tab_at(list[0].1.tabs, id) is None {
        let t = list.skip(1);
        lemma_owner(t, id);
        match owner(t, id) {
            Some(k) => {
                assert(list[k + 1] == t[k]);
                assert forall|j: int| 0 <= j < k + 1 implies tab_at(
                    (#[trigger] list[j]).1.tabs,
                    id,
                ) is None by {
                    if j > 0 {
                        assert(t[j - 1] == list[j]);
                    }
                }
            },
            None => {
                assert forall|j: int| 0 <= j < list.len() implies tab_at(
                    (#[trigger] list[j]).1.tabs,
                    id,
                ) is None by {
                    if j > 0 {
                        assert(t[j - 1] == list[j]);
                    }
                }
            },
        }
    }
}

proof fn lemma_scratch_at(list: Seq<ScratchView>, id: u64)
    ensures
        match scratch_at(list, id) {
            Some(i) => 0 <= i < list.len() && list[i].tab.id == id && forall|j: int|
                0 <= j < i ==> (#[trigger] list[j]).tab.id != id,
            None => forall|j: int| 0 <= j < list.len() ==> (#[trigger] list[j]).tab.id != id,
        },
    decreases list.len(),
{
    if list.len() > 0 && list[0].tab.id != id {
        let t = list.skip(1);
        lemma_scratch_at(t, id);
        match scratch_at(t, id) {
            Some(k) => {
                assert(list[k + 1] == t[k]);
                assert forall|j: int| 0 <= j < k + 1 implies (#[trigger] list[j]).tab.id != id by {
                    if j > 0 {
                        assert(t[j - 1] == list[j]);
                    }
                }
            },
            None => {
                assert forall|j: int| 0 <= j < list.len() implies (#[trigger] list[j]).tab.id
                    != id by {
                    if j > 0 {
                        assert(t[j - 1] == list[j]);
                    }
                }
            },
        }
    }
}

impl Panes {
    /// The terminals are in the order of their workspaces.
    pub open spec fn wf(&self) -> bool {
        ordered(self@.terminals)
    }

    /// With no terminals.
    pub fn new() -> (r: Panes)
        ensures
            r.wf(),
            r@ == (PanesView {
                terminals: Seq::empty(),
                scratch: Seq::empty(),
                renaming: None,
                selected: None,
                next_id: 0,
                next_scratch: 1,
            }),
    {
        let p = Panes {
            terminals: Vec::new(),
            scratch: Vec::new(),
            renaming: None,
            selected: None,
            next_id: 0,
            next_scratch: 1,
        };
        assert(p.terminals.deep_view() =~= Seq::<(Seq<char>, TabsView)>::empty());
        assert(p.scratch.deep_view() =~= Seq::<ScratchView>::empty());
        p
    }

    /// The number for a new terminal.
    pub fn take_id(&mut self) -> (r: u64)
        requires
            old(self).wf(),
            old(self).next_id < u64::MAX,
        ensures
            final(self).wf(),
            r == old(self).next_id,
            final(self)@ == (PanesView { next_id: (r + 1) as u64, ..old(self)@ }),
    {
        let id = self.next_id;
        self.next_id = id + 1;
        id
    }

    fn owner_of(&self, id: u64) -> (r: Option<usize>)
        ensures
            match r {
                Some(i) => owner(self@.terminals, id) == Some(i as int) && i
                    < self.terminals@.len(),
                None => owner(self@.terminals, id) is None,
            },
    {
        let ghost v = self@.terminals;
        proof {
            lemma_owner(v, id);
        }
        for i in 0..self.terminals.len()
            invariant
                v == self@.terminals,
                match owner(v, id) {
                    Some(i) => 0 <= i < v.len() && tab_at(v[i].1.tabs, id) is Some && forall|j: int|
                        0 <= j < i ==> tab_at((#[trigger] v[j]).1.tabs, id) is None,
                    None => forall|j: int|
                        0 <= j < v.len() ==> tab_at((#[trigger] v[j]).1.tabs, id) is None,
                },
                forall|j: int| 0 <= j < i ==> tab_at((#[trigger] v[j]).1.tabs, id) is None,
        {
            assert(v[i as int].1 == self.terminals@[i as int].1.deep_view());
            if self.terminals[i].1.position(id).is_some() {
                return Some(i);
            }
        }
        None
    }

    /// Where the terminal of no workspace with a number is.
    pub fn scratch_position(&self, id: u64) -> (r: Option<usize>)
        ensures
            match r {
                Some(i) => scratch_at(self@.scratch, id) == Some(i as int) && i
                    < self.scratch@.len(),
                None => scratch_at(self@.scratch, id) is None,
            },
    {
        let ghost v = self@.scratch;
        proof {
            lemma_scratch_at(v, id);
        }
        for i in 0..self.scratch.len()
            invariant
                v == self@.scratch,
                match scratch_at(v, id) {
                    Some(i) => 0 <= i < v.len() && v[i].tab.id == id && forall|j: int|
                        0 <= j < i ==> (#[trigger] v[j]).tab.id != id,
                    None => forall|j: int| 0 <= j < v.len() ==> (#[trigger] v[j]).tab.id != id,
                },
                forall|j: int| 0 <= j < i ==> (#[trigger] v[j]).tab.id != id,
        {
            assert(v[i as int] == self.scratch@[i as int].deep_view());
            if self.scratch[i].tab.id == id {
                return Some(i);
            }
        }
        None
    }

    /// Removes the terminal with a number, wherever it is.
    pub fn remove_term_by_id(&mut self, id: u64)
        requires
            old(self).wf(),
        ensures
            final(self).wf(),
            final(self)@ == old(self)@.without_id(id),
    {
        let ghost v = self@;
        let renames = match &self.renaming {
            Some(r) => r.id == id,
            None => false,
        };
        if renames {
            self.renaming = None;
        }
        if let Some(k) = self.owner_of(id) {
            let (name, tabs) = self.terminals.remove(k);
            assert(v.terminals[k as int] == (name@, tabs.deep_view()));
            let ghost t = tabs.deep_view();
            let mut tabs = tabs;
            if let Some(i) = tabs.position(id) {
                tabs.close(i);
            }
            let ghost u = tabs.deep_view();
            assert(u == t.without_id(id));
            self.terminals.insert(k, (name, tabs));
            proof {
                assert(self.terminals.deep_view() =~= v.terminals.update(k as int, (name@, u)));
                lemma_update_ordered(v.terminals, k as int, u);
            }
        } else if let Some(j) = self.scratch_position(id) {
            self.scratch.remove(j);
            assert(self.scratch.deep_view() =~= v.scratch.remove(j as int));
            let shown = match &self.selected {
                Some(Selection::Scratch(s)) => *s == id,
                _ => false,
            };
            if shown {
                self.selected = None;
            }
        }
    }

    /// Takes in the title that a shell gave its terminal.
    pub fn set_title(&mut self, id: u64, title: String)
        requires
            old(self).wf(),
        ensures
            final(self).wf(),
            final(self)@ == old(self)@.titled(id, title@),
    {
        let ghost v = self@;
        if let Some(k) = self.owner_of(id) {
            let (name, tabs) = self.terminals.remove(k);
            assert(v.terminals[k as int] == (name@, tabs.deep_view()));
            let mut tabs = tabs;
            tabs.set_title(id, title);
            let ghost u = tabs.deep_view();
            self.terminals.insert(k, (name, tabs));
            proof {
                assert(self.terminals.deep_view() =~= v.terminals.update(k as int, (name@, u)));
                lemma_update_ordered(v.terminals, k as int, u);
            }
        } else if let Some(j) = self.scratch_position(id) {
            let ghost t = title@;
            let s = self.scratch.remove(j);
            assert(v.scratch[j as int] == s.deep_view());
            let tab = TermTab { id: s.tab.id, title, custom_name: s.tab.custom_name };
            self.scratch.insert(j, ScratchTerminal { name: s.name, tab });
            assert(self.scratch.deep_view() =~= v.scratch.update(
                j as int,
                ScratchView {
                    tab: TermTabView { title: t, ..v.scratch[j as int].tab },
                    ..v.scratch[j as int]
                },
            ));
        }
    }

    /// The terminals of a workspace, where they have been opened.
    pub fn tabs(&self, ws: &str) -> (r: Option<usize>)
        ensures
            match r {
                Some(i) => i < self.terminals@.len() && self.terminals@[i as int].0@ == ws@
                    && entry(self@.terminals, ws@) == Some(
                    self.terminals@[i as int].1.deep_view(),
                ),
                None => entry(self@.terminals, ws@) is None,
            },
    {
        find_entry(&self.terminals, ws)
    }

    /// Gives a workspace its terminals, in place of those that it may have.
    pub fn set_tabs(&mut self, ws: &str, tabs: WorkspaceTerminals)
        requires
            old(self).wf(),
        ensures
            final(self).wf(),
            final(self)@ == (PanesView {
                terminals: put(old(self)@.terminals, ws@, tabs.deep_view()),
                ..old(self)@
            }),
    {
        proof {
            put_law(self@.terminals, ws@, tabs.deep_view(), ws@);
        }
        put_entry(&mut self.terminals, own(ws), tabs);
    }

    /// Takes in a new terminal of no workspace, and shows it.
    pub fn add_scratch(&mut self, tab: TermTab)
        requires
            old(self).wf(),
            old(self).next_scratch < u32::MAX,
        ensures
            final(self).wf(),
            final(self)@ == old(self)@.with_scratch(tab.deep_view()),
    {
        let ghost v = self@;
        let n = decimal(self.next_scratch as u64);
        let name = cat("Terminal ", n.as_str());
        self.next_scratch = self.next_scratch + 1;
        let id = tab.id;
        let ghost x = ScratchView { name: name@, tab: tab.deep_view() };
        self.scratch.push(ScratchTerminal { name, tab });
        assert(self.scratch.deep_view() =~= v.scratch.push(x));
        self.selected = Some(Selection::Scratch(id));
    }

    /// Gives a terminal of no workspace the name that was typed in.
    fn rename_scratch(&mut self, id: u64, name: &str)
        requires
            old(self).wf(),
        ensures
            final(self).wf(),
            final(self)@ == old(self)@.scratch_renamed(id, name@),
    {
        let ghost v = self@;
        if let Some(j) = self.scratch_position(id) {
            let n = trim(name);
            let cs = chars_of(n.as_str());
            if cs.len() > 0 {
                let ghost t = n@;
                let s = self.scratch.remove(j);
                assert(v.scratch[j as int] == s.deep_view());
                self.scratch.insert(j, ScratchTerminal { name: n, tab: s.tab });
                assert(self.scratch.deep_view() =~= v.scratch.update(
                    j as int,
                    ScratchView { name: t, ..v.scratch[j as int] },
                ));
            }
        }
    }
}

proof fn lemma_update_ordered(f: Seq<(Seq<char>, TabsView)>, k: int, t: TabsView)
    requires
        ordered(f),
        0 <= k < f.len(),
    ensures
        ordered(f.update(k, (f[k].0, t))),
{
    let g = f.update(k, (f[k].0, t));
    assert forall|i: int, j: int| 0 <= i < j < g.len() implies crate::text::less(
        (#[trigger] g[i]).0,
        (#[trigger] g[j]).0,
    ) by {
        assert(g[i].0 == f[i].0 && g[j].0 == f[j].0);
    }
}

/// A terminal that was removed is gone from where it was, and every terminal with
/// another number stays where it is.
pub proof fn removed_only(p: PanesView, id: u64, k: int, j: int)
    requires
        0 <= k < p.terminals.len(),
        0 <= j < p.scratch.len(),
    ensures
        p.without_id(id).terminals.len() == p.terminals.len(),
        p.without_id(id).terminals[k].0 == p.terminals[k].0,
        owner(p.terminals, id) != Some(k) ==> p.without_id(id).terminals[k] == p.terminals[k],
        p.scratch[j].tab.id != id ==> p.without_id(id).scratch.contains(p.scratch[j]),
        p.without_id(id).renaming is Some ==> p.without_id(id).renaming->0.id != id,
        scratch_at(p.scratch, id) is Some && owner(p.terminals, id) is None ==> p.without_id(
            id,
        ).selected != Some(SelectionView::Scratch(id)),
{
    lemma_owner(p.terminals, id);
    lemma_scratch_at(p.scratch, id);
    let q = p.without_id(id);
    if p.scratch[j].tab.id != id {
        match scratch_at(p.scratch, id) {
            Some(m) => {
                if owner(p.terminals, id) is None {
                    if j < m {
                        assert(q.scratch[j] == p.scratch[j]);
                    } else {
                        assert(q.scratch[j - 1] == p.scratch[j]);
                    }
                } else {
                    assert(q.scratch[j] == p.scratch[j]);
                }
            },
            None => {
                assert(q.scratch[j] == p.scratch[j]);
            },
        }
    }
}

/// Removing a terminal leaves every number below the next one, and so that one
/// free.
pub proof fn removal_keeps_numbers(p: PanesView, id: u64)
    requires
        p.numbered(),
    ensures
        p.without_id(id).numbered(),
{
    let q = p.without_id(id);
    lemma_owner(p.terminals, id);
    lemma_scratch_at(p.scratch, id);
    assert forall|x: u64| #[trigger] q.uses(x) implies x < q.next_id by {
        lemma_owner(q.terminals, x);
        lemma_owner(p.terminals, x);
        lemma_scratch_at(q.scratch, x);
        lemma_scratch_at(p.scratch, x);
        if let Some(k) = owner(q.terminals, x) {
            let t = p.terminals[k].1;
            let u = q.terminals[k].1;
            lemma_tab_at(t.tabs, x);
            lemma_tab_at(u.tabs, x);
            lemma_tab_at(t.tabs, id);
            let m = tab_at(u.tabs, x)->0;
            if u != t {
                let gone = tab_at(t.tabs, id)->0;
                if m < gone {
                    assert(t.tabs[m] == u.tabs[m]);
                } else {
                    assert(t.tabs[m + 1] == u.tabs[m]);
                }
            }
            assert(tab_at(p.terminals[k].1.tabs, x) is Some);
            assert(owner(p.terminals, x) is Some);
        } else {
            let m = scratch_at(q.scratch, x)->0;
            if q.scratch != p.scratch {
                let gone = scratch_at(p.scratch, id)->0;
                if m < gone {
                    assert(p.scratch[m] == q.scratch[m]);
                } else {
                    assert(p.scratch[m + 1] == q.scratch[m]);
                }
            }
            assert(scratch_at(p.scratch, x) is Some);
        }
        assert(p.uses(x));
    }
}

/// The number for a new terminal is that of no other.
pub proof fn fresh_number(p: PanesView)
    requires
        p.numbered(),
    ensures
        !p.uses(p.next_id),
{
}

// ---------------------------------------------------------------------------
// What is shown
// ---------------------------------------------------------------------------

/// What is shown after the workspaces have been read anew: what was, where it is
/// still there, else the first workspace.
pub open spec fn reselected(
    selected: Option<SelectionView>,
    workspaces: Seq<WorkspaceConfigView>,
    scratch: Seq<ScratchView>,
) -> Option<SelectionView> {
    let present = match selected {
        Some(SelectionView::Workspace(n)) => names(workspaces).contains(n),
        Some(SelectionView::Scratch(id)) => scratch_at(scratch, id) is Some,
        None => false,
    };
    if present {
        selected
    } else if workspaces.len() > 0 {
        Some(SelectionView::Workspace(workspaces[0].workspace.name))
    } else {
        None
    }
}

impl Panes {
    /// Looks after what is shown, after the workspaces have been read anew.
    pub fn reselect(&mut self, workspaces: &Vec<WorkspaceConfig>)
        requires
            old(self).wf(),
        ensures
            final(self).wf(),
            final(self)@ == (PanesView {
                selected: reselected(
                    old(self)@.selected,
                    workspaces.deep_view(),
                    old(self)@.scratch,
                ),
                ..old(self)@
            }),
    {
        let present = match &self.selected {
            Some(Selection::Workspace(n)) => {
                let known = crate::session::workspace_names(workspaces);
                among(&known, n.as_str())
            },
            Some(Selection::Scratch(id)) => self.scratch_position(*id).is_some(),
            None => false,
        };
        if !present {
            self.selected = if workspaces.len() > 0 {
                assert(workspaces.deep_view()[0] == workspaces@[0].deep_view());
                Some(Selection::Workspace(workspaces[0].workspace.name.clone()))
            } else {
                None
            };
        }
    }
}

/// The workspace that is shown, by its place in the list.
pub open spec fn workspace_at(list: Seq<WorkspaceConfigView>, name: Seq<char>) -> Option<int>
    decreases list.len(),
{
    if list.len() == 0 {
        None
    } else if list[0].workspace.name == name {
        Some(0int)
    } else {
        match workspace_at(list.skip(1), name) {
            Some(i) => Some(i + 1),
            None => None,
        }
    }
}

proof fn lemma_workspace_at(list: Seq<WorkspaceConfigView>, name: Seq<char>, k: int)
    requires
        0 <= k <= list.len(),
        forall|i: int| 0 <= i < k ==> (#[trigger] list[i]).workspace.name != name,
        k < list.len() ==> list[k].workspace.name == name,
    ensures
        workspace_at(list, name) == (if k < list.len() {
            Some(k)
        } else {
            None
        }),
    decreases k,
{
    if k > 0 {
        assert(list[0].workspace.name != name);
        let t = list.skip(1);
        assert forall|i: int| 0 <= i < k - 1 implies (#[trigger] t[i]).workspace.name != name by {
            assert(t[i] == list[i + 1]);
        }
        lemma_workspace_at(t, name, k - 1);
    }
}

/// Where a workspace is in the list.
pub fn find_workspace(workspaces: &Vec<WorkspaceConfig>, name: &str) -> (r: Option<usize>)
    ensures
        match r {
            Some(i) => workspace_at(workspaces.deep_view(), name@) == Some(i as int) && i
                < workspaces@.len() && workspaces@[i as int].workspace.name@ == name@,
            None => workspace_at(workspaces.deep_view(), name@) is None,
        },
{
    let ghost v = workspaces.deep_view();
    for i in 0..workspaces.len()
        invariant
            v == workspaces.deep_view(),
            forall|j: int| 0 <= j < i ==> (#[trigger] v[j]).workspace.name != name@,
    {
        assert(v[i as int].workspace.name == workspaces@[i as int].workspace.name@);
        if same(workspaces[i].workspace.name.as_str(), name) {
            proof {
                lemma_workspace_at(v, name@, i as int);
            }
            return Some(i);
        }
    }
    proof {
        lemma_workspace_at(v, name@, v.len() as int);
    }
    None
}

/// The workspace that is shown, by its place in the list.
pub fn selected_workspace(selected: &Option<Selection>, workspaces: &Vec<WorkspaceConfig>) -> (r:
    Option<usize>)
    ensures
        match (selected.deep_view(), r) {
            (Some(SelectionView::Workspace(n)), Some(i)) => workspace_at(
                workspaces.deep_view(),
                n,
            ) == Some(i as int) && i < workspaces@.len(),
            (Some(SelectionView::Workspace(n)), None) => workspace_at(
                workspaces.deep_view(),
                n,
            ) is None,
            (_, r) => r is None,
        },
{
    match selected {
        Some(Selection::Workspace(n)) => find_workspace(workspaces, n.as_str()),
        _ => None,
    }
}

// ---------------------------------------------------------------------------
// What the user did to the list
// ---------------------------------------------------------------------------

/// What the user did to the list of workspaces and terminals in a frame.
#[derive(Debug)]
pub struct ListActions {
    /// The workspace that was clicked: its windows are raised.
    pub raise: Option<String>,
    /// A new terminal is to be opened.
    pub new_scratch: bool,
    pub close_scratch: Option<u64>,
    /// The terminal to be renamed, and what it is called.
    pub start_rename: Option<(u64, String)>,
    pub commit_rename: Option<u64>,
    pub cancel_rename: bool,
}

/// The panes after a name has been accepted.
pub open spec fn after_scratch_commit(p: PanesView, commit: Option<u64>) -> PanesView {
    match (commit, p.renaming) {
        (Some(id), Some(r)) => PanesView {
            renaming: None,
            ..p.scratch_renamed(id, r.buffer)
        },
        _ => p,
    }
}

/// The panes after what the user did to the list: a terminal is closed, a name is
/// accepted or given up, and another terminal is renamed, in that order.
pub open spec fn after_list(
    p: PanesView,
    close: Option<u64>,
    commit: Option<u64>,
    cancel: bool,
    start: Option<(u64, Seq<char>)>,
) -> PanesView {
    let a = match close {
        Some(id) => p.without_id(id),
        None => p,
    };
    let b = after_scratch_commit(a, commit);
    match start {
        Some((id, name)) => PanesView {
            renaming: Some(RenamingView { id, buffer: name, focus: true }),
            ..b
        },
        None => if cancel {
            PanesView { renaming: None, ..b }
        } else {
            b
        },
    }
}

impl Panes {
    /// Does what the user did to the list, but for the new terminal, which has to
    /// be opened first, and the windows to raise.
    pub fn apply_list(&mut self, list: ListActions)
        requires
            old(self).wf(),
        ensures
            final(self).wf(),
            final(self)@ == after_list(
                old(self)@,
                list.close_scratch,
                list.commit_rename,
                list.cancel_rename,
                match list.start_rename {
                    Some(x) => Some((x.0, x.1@)),
                    None => None,
                },
            ),
    {
        if let Some(id) = list.close_scratch {
            self.remove_term_by_id(id);
        }
        if let Some(id) = list.commit_rename {
            let ghost v = self@;
            let mut taken: Option<Renaming> = None;
            core::mem::swap(&mut taken, &mut self.renaming);
            if let Some(r) = taken {
                self.rename_scratch(id, r.buffer.as_str());
                assert(self@ =~= after_scratch_commit(v, Some(id)));
            } else {
                assert(self@ =~= v);
            }
        }
        if list.cancel_rename {
            self.renaming = None;
        }
        if let Some((id, buffer)) = list.start_rename {
            self.renaming = Some(Renaming { id, buffer, focus: true });
        }
    }

    /// Shows what was clicked.
    pub fn select(&mut self, target: Selection)
        requires
            old(self).wf(),
        ensures
            final(self).wf(),
            final(self)@ == (PanesView { selected: Some(target.deep_view()), ..old(self)@ }),
    {
        self.selected = Some(target);
    }

    /// Closes every terminal, as the window closes.
    pub fn close_all(&mut self)
        requires
            old(self).wf(),
        ensures
            final(self).wf(),
            final(self)@ == (PanesView {
                terminals: Seq::empty(),
                scratch: Seq::empty(),
                ..old(self)@
            }),
    {
        self.terminals = Vec::new();
        self.scratch = Vec::new();
        assert(self.terminals.deep_view() =~= Seq::<(Seq<char>, TabsView)>::empty());
        assert(self.scratch.deep_view() =~= Seq::<ScratchView>::empty());
    }
}

/// What a field for a name comes to when it loses the keyboard: Escape gives the
/// name up, everything else accepts it.
pub fn rename_outcome(lost_focus: bool, escape: bool) -> (r: Option<bool>)
    ensures
        r == (if lost_focus {
            Some(!escape)
        } else {
            None
        }),
{
    if lost_focus {
        Some(!escape)
    } else {
        None
    }
}

/// Whether the terminal in front may take the keyboard: not while a form is open,
/// nor while a name is typed in.
pub fn allow_focus(form_open: bool, renaming: bool) -> (r: bool)
    ensures
        r == (!form_open && !renaming),
{
    !form_open && !renaming
}

// ---------------------------------------------------------------------------
// What stays as it is
// ---------------------------------------------------------------------------

/// A name that is typed in becomes that of the terminal that it was typed in for,
/// without the whitespace around it, and a blank one gives the terminal back the
/// title of its shell. No other terminal changes, nor does the one in front.
pub proof fn renamed_only(t: TabsView, id: u64, name: Seq<char>, k: int)
    requires
        0 <= k < t.tabs.len(),
        forall|i: int, j: int|
            0 <= i < j < t.tabs.len() ==> (#[trigger] t.tabs[i]).id != (#[trigger] t.tabs[j]).id,
    ensures
        t.renamed(id, name).tabs.len() == t.tabs.len(),
        t.renamed(id, name).active == t.active,
        t.renamed(id, name).tabs[k].id == t.tabs[k].id,
        t.renamed(id, name).tabs[k].title == t.tabs[k].title,
        t.tabs[k].id != id ==> t.renamed(id, name).tabs[k] == t.tabs[k],
        t.tabs[k].id == id ==> t.renamed(id, name).tabs[k].name() == (if trimmed(name).len() > 0 {
            trimmed(name)
        } else {
            t.tabs[k].title
        }),
{
    lemma_tab_at(t.tabs, id);
    if t.tabs[k].id == id {
        let i = tab_at(t.tabs, id)->0;
        if i < k {
            assert(t.tabs[i].id != t.tabs[k].id);
        } else if k < i {
            assert(t.tabs[k].id != id);
        }
    }
}

/// A title that a shell gives becomes that of its terminal alone, and shows where
/// the user has not named it.
pub proof fn titled_only(t: TabsView, id: u64, title: Seq<char>, k: int)
    requires
        0 <= k < t.tabs.len(),
        forall|i: int, j: int|
            0 <= i < j < t.tabs.len() ==> (#[trigger] t.tabs[i]).id != (#[trigger] t.tabs[j]).id,
    ensures
        t.titled(id, title).tabs.len() == t.tabs.len(),
        t.titled(id, title).active == t.active,
        t.tabs[k].id != id ==> t.titled(id, title).tabs[k] == t.tabs[k],
        t.tabs[k].id == id ==> t.titled(id, title).tabs[k].name() == (if t.tabs[k].custom_name
            is Some {
            t.tabs[k].custom_name->0
        } else {
            title
        }) && t.titled(id, title).tabs[k].id == id,
{
    lemma_tab_at(t.tabs, id);
    if t.tabs[k].id == id {
        let i = tab_at(t.tabs, id)->0;
        if i < k {
            assert(t.tabs[i].id != t.tabs[k].id);
        } else if k < i {
            assert(t.tabs[k].id != id);
        }
    }
}

/// Closing a terminal leaves the others as they are, in their order, and a new one
/// comes behind them all, in front.
pub proof fn closed_only(t: TabsView, i: int, k: int, tab: TermTabView)
    requires
        0 <= i < t.tabs.len(),
        0 <= k < t.tabs.len(),
        t.tabs.len() < usize::MAX,
    ensures
        t.without_at(i).tabs.len() == t.tabs.len() - 1,
        k < i ==> t.without_at(i).tabs[k] == t.tabs[k],
        k > i ==> t.without_at(i).tabs[k - 1] == t.tabs[k],
        t.with_tab(tab).tabs.len() == t.tabs.len() + 1,
        t.with_tab(tab).tabs[k] == t.tabs[k],
        t.with_tab(tab).tabs[t.with_tab(tab).active as int] == tab,
        t.active < t.tabs.len() - 1 ==> t.without_at(i).active == t.active,
{
}

/// What is being renamed is what was asked for last: a new request, with the name
/// that the terminal has; and else what was being renamed, until the name has been
/// taken in or given up.
pub proof fn renaming_goes_on(
    t: TabsView,
    renaming: Option<RenamingView>,
    start: Option<u64>,
    commit: bool,
    cancel: bool,
    k: int,
)
    ensures
        start is None && (commit || cancel) ==> renaming_after(t, renaming, start, commit, cancel)
            is None,
        start is None && !commit && !cancel ==> renaming_after(t, renaming, start, commit, cancel)
            == renaming,
        start is Some && 0 <= k < t.tabs.len() && t.tabs[k].id == start->0 && (forall|j: int|
            0 <= j < k ==> (#[trigger] t.tabs[j]).id != start->0) ==> renaming_after(
            t,
            renaming,
            start,
            commit,
            cancel,
        ) == Some(RenamingView { id: start->0, buffer: t.tabs[k].name(), focus: true }),
{
    if start is Some {
        lemma_tab_at(t.tabs, start->0);
        if 0 <= k < t.tabs.len() && t.tabs[k].id == start->0 && (forall|j: int|
            0 <= j < k ==> (#[trigger] t.tabs[j]).id != start->0) {
            let i = tab_at(t.tabs, start->0)->0;
            if k < i {
                assert(t.tabs[k].id != start->0);
            } else if i < k {
                assert(t.tabs[i].id != start->0);
            }
        }
    }
}

/// A name that is typed in is taken where it is committed, for the terminal that is
/// being renamed, and only then. Which terminal is in front is what was asked for,
/// where that is there.
pub proof fn names_taken_on_commit(
    t: TabsView,
    renaming: Option<RenamingView>,
    commit: bool,
    activate: usize,
)
    ensures
        !commit || renaming is None ==> after_commit(t, renaming, commit) == t,
        commit && renaming is Some ==> after_commit(t, renaming, commit) == t.renamed(
            renaming->0.id,
            renaming->0.buffer,
        ),
        activate < t.tabs.len() ==> after_activate(t, Some(activate)).active == activate,
        t.in_range() && t.tabs.len() > 0 ==> after_activate(t, None) == t,
        after_activate(t, Some(activate)).tabs == t.tabs,
{
}

/// A terminal that is being renamed stays so, unless it is the one that is closed.
pub proof fn renaming_survives_close(t: TabsView, r: RenamingView, i: usize)
    requires
        i < t.tabs.len(),
    ensures
        renaming_after_close(t, Some(r), Some(i)) == (if t.tabs[i as int].id == r.id {
            None
        } else {
            Some(r)
        }),
        renaming_after_close(t, Some(r), None) == Some(r),
{
}

/// What is shown stays shown while it is there. Where it is not, the first workspace
/// is shown, so that something is shown wherever there is a workspace.
pub proof fn shown_is_there(
    selected: Option<SelectionView>,
    workspaces: Seq<WorkspaceConfigView>,
    scratch: Seq<ScratchView>,
)
    ensures
        ({
            let r = reselected(selected, workspaces, scratch);
            &&& (selected is Some && selected->0 is Workspace && exists|i: int|
                0 <= i < workspaces.len() && (#[trigger] workspaces[i]).workspace.name
                    == selected->0->Workspace_0) ==> r == selected
            &&& (selected is Some && selected->0 is Scratch && exists|i: int|
                0 <= i < scratch.len() && (#[trigger] scratch[i]).tab.id == selected->0->Scratch_0)
                ==> r == selected
            &&& workspaces.len() > 0 ==> r is Some
            &&& r is Some ==> (match r->0 {
                SelectionView::Workspace(n) => exists|i: int|
                    0 <= i < workspaces.len() && (#[trigger] workspaces[i]).workspace.name == n,
                SelectionView::Scratch(id) => exists|i: int|
                    0 <= i < scratch.len() && (#[trigger] scratch[i]).tab.id == id,
            })
            &&& r is Some && r != selected ==> r == Some(
                SelectionView::Workspace(workspaces[0].workspace.name),
            )
        }),
{
    let l = names(workspaces);
    if selected is Some {
        match selected->0 {
            SelectionView::Workspace(n) => {
                if exists|i: int|
                    0 <= i < workspaces.len() && (#[trigger] workspaces[i]).workspace.name == n {
                    let i = choose|i: int|
                        0 <= i < workspaces.len() && (#[trigger] workspaces[i]).workspace.name == n;
                    assert(l[i] == n);
                }
                if l.contains(n) {
                    let i = choose|i: int| 0 <= i < l.len() && l[i] == n;
                    assert(workspaces[i].workspace.name == n);
                }
            },
            SelectionView::Scratch(id) => {
                lemma_scratch_at(scratch, id);
            },
        }
    }
    if workspaces.len() > 0 {
        assert(workspaces[0].workspace.name == l[0]);
    }
}

/// A workspace is found by its name, the first of that name.
pub proof fn workspace_by_name(list: Seq<WorkspaceConfigView>, name: Seq<char>, k: int)
    requires
        0 <= k < list.len(),
        list[k].workspace.name == name,
        forall|i: int| 0 <= i < k ==> (#[trigger] list[i]).workspace.name != name,
    ensures
        workspace_at(list, name) == Some(k),
{
    lemma_workspace_at(list, name, k);
}

/// Closing a terminal of the list, and naming one, do what is asked and nothing to
/// the terminals of workspaces that do not have it; a blank name is not taken.
pub proof fn list_changes(p: PanesView, id: u64, name: Seq<char>, k: int)
    requires
        0 <= k < p.scratch.len(),
        forall|i: int, j: int|
            0 <= i < j < p.scratch.len() ==> (#[trigger] p.scratch[i]).tab.id != (
            #[trigger] p.scratch[j]).tab.id,
    ensures
        ({
            let q = p.scratch_renamed(id, name);
            &&& q.scratch.len() == p.scratch.len()
            &&& q.terminals == p.terminals
            &&& q.selected == p.selected
            &&& q.scratch[k].tab == p.scratch[k].tab
            &&& q.scratch[k].name == (if p.scratch[k].tab.id == id && trimmed(name).len() > 0 {
                trimmed(name)
            } else {
                p.scratch[k].name
            })
        }),
        after_list(p, Some(id), None, false, None) == p.without_id(id),
        after_list(p, None, None, false, None) == p,
        after_list(p, None, None, true, None) == (PanesView { renaming: None, ..p }),
        after_list(p, None, None, false, Some((id, name))).renaming == Some(
            RenamingView { id, buffer: name, focus: true },
        ),
        p.renaming is Some ==> after_list(p, None, Some(id), false, None).scratch
            == p.scratch_renamed(id, p.renaming->0.buffer).scratch && after_list(
            p,
            None,
            Some(id),
            false,
            None,
        ).renaming is None,
{
    lemma_scratch_at(p.scratch, id);
    if p.scratch[k].tab.id == id {
        let i = scratch_at(p.scratch, id)->0;
        if i < k {
            assert(p.scratch[i].tab.id != p.scratch[k].tab.id);
        } else if k < i {
            assert(p.scratch[k].tab.id != id);
        }
    }
}

/// The terminal with a number is gone after it has been removed, wherever it was,
/// where numbers are not used twice.
pub proof fn removed_is_gone(p: PanesView, id: u64)
    requires
        forall|i: int, j: int|
            0 <= i < j < p.scratch.len() ==> (#[trigger] p.scratch[i]).tab.id != (
            #[trigger] p.scratch[j]).tab.id,
        owner(p.terminals, id) is None,
    ensures
        !p.without_id(id).uses(id),
{
    lemma_scratch_at(p.scratch, id);
    let q = p.without_id(id);
    lemma_scratch_at(q.scratch, id);
    if scratch_at(p.scratch, id) is Some && scratch_at(q.scratch, id) is Some {
        let j = scratch_at(p.scratch, id)->0;
        let k = scratch_at(q.scratch, id)->0;
        if k < j {
            assert(q.scratch[k] == p.scratch[k]);
            assert(p.scratch[k].tab.id != p.scratch[j].tab.id);
        } else {
            assert(q.scratch[k] == p.scratch[k + 1]);
            assert(p.scratch[j].tab.id != p.scratch[k + 1].tab.id);
        }
    }
}

/// The terminal with a number is gone from its workspace after it has been removed,
/// and every other one is there still.
pub proof fn tab_removed(t: TabsView, id: u64, other: u64)
    requires
        forall|i: int, j: int|
            0 <= i < j < t.tabs.len() ==> (#[trigger] t.tabs[i]).id != (#[trigger] t.tabs[j]).id,
    ensures
        tab_at(t.without_id(id).tabs, id) is None,
        other != id ==> (tab_at(t.without_id(id).tabs, other) is Some <==> tab_at(t.tabs, other)
            is Some),
        other != id && tab_at(t.tabs, other) is Some ==> t.without_id(id).tabs[tab_at(
            t.without_id(id).tabs,
            other,
        )->0] == t.tabs[tab_at(t.tabs, other)->0],
{
    lemma_tab_at(t.tabs, id);
    lemma_tab_at(t.tabs, other);
    let q = t.without_id(id).tabs;
    lemma_tab_at(q, id);
    lemma_tab_at(q, other);
    if tab_at(t.tabs, id) is Some {
        let j = tab_at(t.tabs, id)->0;
        assert forall|k: int| 0 <= k < q.len() implies (#[trigger] q[k]).id != id by {
            if k < j {
                assert(q[k] == t.tabs[k]);
                assert(t.tabs[k].id != t.tabs[j].id);
            } else {
                assert(q[k] == t.tabs[k + 1]);
                assert(t.tabs[j].id != t.tabs[k + 1].id);
            }
        }
        if other != id && tab_at(t.tabs, other) is Some {
            let m = tab_at(t.tabs, other)->0;
            let at = if m < j {
                m
            } else {
                m - 1
            };
            assert(q[at] == t.tabs[m]);
            let k = tab_at(q, other)->0;
            let back = if k < j {
                k
            } else {
                k + 1
            };
            assert(q[k] == t.tabs[back]);
            if back < m {
                assert(t.tabs[back].id != t.tabs[m].id);
            } else if m < back {
                assert(t.tabs[m].id != t.tabs[back].id);
            }
        }
        if tab_at(q, other) is Some {
            let k = tab_at(q, other)->0;
            if k < j {
                assert(q[k] == t.tabs[k]);
            } else {
                assert(q[k] == t.tabs[k + 1]);
            }
        }
    }
}

/// A new terminal of no workspace comes behind the others, which stay as they are, is
/// shown, and gets a name that no later one gets.
pub proof fn scratch_added(p: PanesView, a: TermTabView, b: TermTabView, k: int)
    requires
        p.next_scratch + 1 < u32::MAX,
        0 <= k < p.scratch.len(),
    ensures
        p.with_scratch(a).scratch.len() == p.scratch.len() + 1,
        p.with_scratch(a).scratch[k] == p.scratch[k],
        p.with_scratch(a).scratch.last().tab == a,
        p.with_scratch(a).selected == Some(SelectionView::Scratch(a.id)),
        p.with_scratch(a).terminals == p.terminals,
        p.with_scratch(a).renaming == p.renaming,
        p.with_scratch(a).with_scratch(b).scratch.last().name != p.with_scratch(
            a,
        ).scratch.last().name,
{
    let (m, n) = (p.next_scratch as nat, (p.next_scratch + 1) as nat);
    decimal_law(m, m);
    decimal_law(n, n);
    let (x, y) = ("Terminal "@ + decimal_of(m), "Terminal "@ + decimal_of(n));
    let c = "Terminal "@.len() as int;
    assert(x.skip(c) =~= decimal_of(m));
    assert(y.skip(c) =~= decimal_of(n));
}

/// A title that a shell gives reaches its own terminal, wherever that is, and no
/// other: the terminals of every other workspace stay as they are, and so do the
/// numbers of all.
pub proof fn title_reaches_one(p: PanesView, id: u64, title: Seq<char>, k: int, j: int)
    requires
        0 <= k < p.terminals.len(),
        0 <= j < p.scratch.len(),
    ensures
        ({
            let q = p.titled(id, title);
            &&& q.terminals.len() == p.terminals.len()
            &&& q.scratch.len() == p.scratch.len()
            &&& q.terminals[k].0 == p.terminals[k].0
            &&& q.terminals[k].1.tabs.len() == p.terminals[k].1.tabs.len()
            &&& owner(p.terminals, id) != Some(k) ==> q.terminals[k] == p.terminals[k]
            &&& owner(p.terminals, id) == Some(k) ==> q.terminals[k].1 == p.terminals[k].1.titled(
                id,
                title,
            )
            &&& q.scratch[j].name == p.scratch[j].name
            &&& q.scratch[j].tab.id == p.scratch[j].tab.id
            &&& p.scratch[j].tab.id != id ==> q.scratch[j] == p.scratch[j]
            &&& owner(p.terminals, id) is None && scratch_at(p.scratch, id) == Some(j)
                ==> q.scratch[j].tab.title == title
            &&& q.selected == p.selected
            &&& q.renaming == p.renaming
        }),
{
    lemma_owner(p.terminals, id);
    lemma_scratch_at(p.scratch, id);
    lemma_tab_at(p.terminals[k].1.tabs, id);
}

} // verus!
