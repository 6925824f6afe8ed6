//! Mouse, clipboard and dropped files for the embedded terminals: what is sent
//! to the program, and what is done with the selection.
use vstd::prelude::*;
use vstd::utf8::encode_utf8;

use crate::paths::{components_of, file_name, file_name_of, names_of};
use crate::text::{
    before, cat, cat3, chars_of, decimal, decimal_of, is_alnum, is_ascii_alphanumeric, join, joined,
    is_space, lemma_before, own, removed_law, replace, replaced, split, split_joined, string_of, trim_end,
    trim_right, trim_right_law,
};

verus! {

/// What the program in a terminal has asked for.
#[derive(Debug, Clone, Copy, PartialEq, Eq, Structural)]
pub struct TermMode {
    /// It tracks the mouse: clicks, drags and the wheel are its own.
    pub mouse_mode: bool,
    /// It wants mouse reports in the long form.
    pub sgr_mouse: bool,
    /// It wants pasted text fenced.
    pub bracketed_paste: bool,
}

/// Whether the bits of a mode hold any that stands for a way of tracking the
/// mouse: clicks, motion or drags.
pub open spec fn tracks_mouse(bits: u32) -> bool {
    bits & 0x2048 != 0
}

/// Whether the bits of a mode hold that of the long mouse reports.
pub open spec fn wants_sgr(bits: u32) -> bool {
    bits & 0x20 != 0
}

/// Whether the bits of a mode hold that of fenced pastes.
pub open spec fn wants_fence(bits: u32) -> bool {
    bits & 0x10 != 0
}

/// Reads the bits of an `alacritty_terminal::term::TermMode`, with its
/// `intersects` for `MOUSE_MODE` and its `contains` for `SGR_MOUSE` and
/// `BRACKETED_PASTE`: whether any bit of the first is set, and whether the bit of
/// each of the others is.
#[verifier::external_body]
fn flags_of_mode(bits: u32) -> (r: (bool, bool, bool))
    ensures
        r.0 == tracks_mouse(bits),
        r.1 == wants_sgr(bits),
        r.2 == wants_fence(bits),
{
    let mode = alacritty_terminal::term::TermMode::from_bits_retain(bits);
    (
        mode.intersects(alacritty_terminal::term::TermMode::MOUSE_MODE),
        mode.contains(alacritty_terminal::term::TermMode::SGR_MOUSE),
        mode.contains(alacritty_terminal::term::TermMode::BRACKETED_PASTE),
    )
}

impl TermMode {
    /// By the bits of the terminal's own mode.
    pub fn of_bits(bits: u32) -> (r: TermMode)
        ensures
            r.mouse_mode == tracks_mouse(bits),
            r.sgr_mouse == wants_sgr(bits),
            r.bracketed_paste == wants_fence(bits),
    {
        let (mouse_mode, sgr_mouse, bracketed_paste) = flags_of_mode(bits);
        TermMode { mouse_mode, sgr_mouse, bracketed_paste }
    }
}

/// The buttons that stand for the wheel in a mouse report.
pub const WHEEL_UP: u8 = 64;

pub const WHEEL_DOWN: u8 = 65;

/// The most reports that are sent for the scrolling of one frame.
pub const MAX_WHEEL_REPORTS: i32 = 10;

/// The bytes of a text.
pub fn bytes_of(s: &str) -> (r: Vec<u8>)
    ensures
        r@ == encode_utf8(s@),
{
    let b = s.as_bytes();
    let mut out: Vec<u8> = Vec::new();
    for i in 0..b.len()
        invariant
            b@ == encode_utf8(s@),
            out@ == b@.take(i as int),
    {
        out.push(b[i]);
        assert(b@.take(i + 1) =~= b@.take(i as int).push(b@[i as int]));
    }
    assert(b@.take(b@.len() as int) =~= b@);
    out
}

// ---------------------------------------------------------------------------
// Pasting
// ---------------------------------------------------------------------------

/// `s` with every line ending, `\r\n` or `\n`, as the carriage return that the
/// Enter key sends.
pub open spec fn entered(s: Seq<char>) -> Seq<char>
    decreases s.len(),
{
    if s.len() == 0 {
        Seq::empty()
    } else if s.len() > 1 && s[0] == '\r' && s[1] == '\n' {
        seq!['\r'] + entered(s.skip(2))
    } else if s[0] == '\n' {
        seq!['\r'] + entered(s.skip(1))
    } else {
        seq![s[0]] + entered(s.skip(1))
    }
}

/// `s` without its escape characters.
pub open spec fn unescaped(s: Seq<char>) -> Seq<char> {
    replaced(s, '\x1b', Seq::empty())
}

/// What is sent for a pasted text. A program that wants it fenced gets it so,
/// without the escapes that could end the fence.
pub open spec fn pasted(text: Seq<char>, mode: TermMode) -> Seq<char> {
    if mode.bracketed_paste {
        "\x1b[200~"@ + unescaped(text) + "\x1b[201~"@
    } else {
        entered(text)
    }
}

fn enter_lines(text: &str) -> (r: String)
    ensures
        r@ == entered(text@),
{
    let cs = chars_of(text);
    let n = cs.len();
    let mut out: Vec<char> = Vec::new();
    let mut i: usize = 0;
    assert(text@.skip(0) =~= text@);
    assert(out@ + entered(text@) =~= entered(text@));
    while i < n
        invariant
            n == cs@.len(),
            cs@ == text@,
            i <= n,
            entered(text@) == out@ + entered(text@.skip(i as int)),
        decreases n - i,
    {
        let ghost rest = text@.skip(i as int);
        let ghost o = out@;
        assert(rest.len() == n - i && rest[0] == cs@[i as int]);
        if n - i > 1 && cs[i] == '\r' && cs[i + 1] == '\n' {
            assert(rest[1] == cs@[i + 1]);
            assert(rest.skip(2) =~= text@.skip(i + 2));
            out.push('\r');
            assert(o + (seq!['\r'] + entered(text@.skip(i + 2))) =~= out@ + entered(
                text@.skip(i + 2),
            ));
            i = i + 2;
        } else {
            assert(n - i > 1 ==> rest[1] == cs@[i + 1]);
            assert(rest.skip(1) =~= text@.skip(i + 1));
            let c = if cs[i] == '\n' {
                '\r'
            } else {
                cs[i]
            };
            out.push(c);
            assert(o + (seq![c] + entered(text@.skip(i + 1))) =~= out@ + entered(
                text@.skip(i + 1),
            ));
            i = i + 1;
        }
    }
    assert(text@.skip(n as int).len() == 0);
    assert(out@ + entered(text@.skip(n as int)) =~= out@);
    string_of(&out)
}

/// The bytes to send for a pasted text.
pub fn paste_bytes(text: &str, mode: TermMode) -> (r: Vec<u8>)
    ensures
        r@ == encode_utf8(pasted(text@, mode)),
{
    if mode.bracketed_paste {
        proof {
            reveal_strlit("");
            assert(""@ =~= Seq::<char>::empty());
        }
        let clean = replace(text, '\x1b', "");
        let fenced = cat3("\x1b[200~", clean.as_str(), "\x1b[201~");
        bytes_of(fenced.as_str())
    } else {
        let lines = enter_lines(text);
        bytes_of(lines.as_str())
    }
}

/// Pasted text cannot leave its fence: there is no escape between the two that
/// open and close it.
pub proof fn paste_stays_fenced(text: Seq<char>)
    ensures
        !unescaped(text).contains('\x1b'),
    decreases text.len(),
{
    if text.len() > 0 {
        paste_stays_fenced(text.drop_last());
        let rest = unescaped(text.drop_last());
        let now = unescaped(text);
        if text.last() == '\x1b' {
            assert(now =~= rest);
        } else {
            assert(now == rest.push(text.last()));
        }
        assert forall|i: int| 0 <= i < now.len() implies now[i] != '\x1b' by {
            if i < rest.len() {
                assert(now[i] == rest[i]);
                assert(rest.contains(rest[i]));
            }
        }
    }
}

/// No line feed is sent to a program that has not asked for the fence, so no
/// line of a pasted text is told from one that was typed.
pub proof fn entered_has_no_line_feed(s: Seq<char>)
    ensures
        !entered(s).contains('\n'),
    decreases s.len(),
{
    if s.len() > 0 {
        let (head, rest) = if s.len() > 1 && s[0] == '\r' && s[1] == '\n' {
            ('\r', s.skip(2))
        } else if s[0] == '\n' {
            ('\r', s.skip(1))
        } else {
            (s[0], s.skip(1))
        };
        entered_has_no_line_feed(rest);
        let e = entered(s);
        assert(e == seq![head] + entered(rest));
        assert forall|i: int| 0 <= i < e.len() implies e[i] != '\n' by {
            if i > 0 {
                assert(e[i] == entered(rest)[i - 1]);
                assert(entered(rest).contains(entered(rest)[i - 1]));
            }
        }
    }
}

// ---------------------------------------------------------------------------
// The mouse
// ---------------------------------------------------------------------------

/// A mouse report for a cell, counted from 0. The short form cannot name a cell
/// past its range; nothing is sent there.
pub open spec fn report(mode: TermMode, button: u8, col: usize, row: usize) -> Seq<u8> {
    if mode.sgr_mouse {
        encode_utf8(
            "\x1b[<"@ + decimal_of(button as nat) + ";"@ + decimal_of((col + 1) as nat) + ";"@
                + decimal_of((row + 1) as nat) + "M"@,
        )
    } else if col < 223 && row < 223 {
        seq![
            0x1bu8,
            0x5bu8,
            0x4du8,
            (32 + button) as u8,
            (33 + col) as u8,
            (33 + row) as u8,
        ]
    } else {
        Seq::empty()
    }
}

/// A mouse report in the form that the program asked for. The cell is counted
/// from 0.
pub fn mouse_report(mode: TermMode, button: u8, col: usize, row: usize) -> (r: Vec<u8>)
    requires
        mode.sgr_mouse ==> col < usize::MAX && row < usize::MAX,
        !mode.sgr_mouse && col < 223 && row < 223 ==> button <= 223,
    ensures
        r@ == report(mode, button, col, row),
{
    if mode.sgr_mouse {
        let b = decimal(button as u64);
        let c = decimal((col + 1) as u64);
        let w = decimal((row + 1) as u64);
        let mut s = cat3("\x1b[<", b.as_str(), ";");
        s = cat3(s.as_str(), c.as_str(), ";");
        s = cat3(s.as_str(), w.as_str(), "M");
        bytes_of(s.as_str())
    } else if col < 223 && row < 223 {
        let mut v: Vec<u8> = Vec::new();
        v.push(0x1b);
        v.push(0x5b);
        v.push(0x4d);
        v.push(32 + button);
        v.push(33 + col as u8);
        v.push(33 + row as u8);
        assert(v@ =~= report(mode, button, col, row));
        v
    } else {
        Vec::new()
    }
}

/// What the wheel does.
#[derive(Debug)]
pub enum WheelAction {
    Nothing,
    /// The terminal scrolls by so many lines.
    Scroll(i32),
    /// The program is sent reports.
    Write(Vec<u8>),
}

/// What a [`WheelAction`] stands for.
pub enum WheelActionView {
    Nothing,
    Scroll(i32),
    Write(Seq<u8>),
}

impl View for WheelAction {
    type V = WheelActionView;

    open spec fn view(&self) -> WheelActionView {
        match self {
            WheelAction::Nothing => WheelActionView::Nothing,
            WheelAction::Scroll(n) => WheelActionView::Scroll(*n),
            WheelAction::Write(b) => WheelActionView::Write(b@),
        }
    }
}

/// `n` copies of `s`, one after the other.
pub open spec fn repeated(s: Seq<u8>, n: nat) -> Seq<u8>
    decreases n,
{
    if n == 0 {
        Seq::empty()
    } else {
        repeated(s, (n - 1) as nat) + s
    }
}

/// How many reports are sent for so many lines.
pub open spec fn report_count(lines: i32) -> nat {
    let n = if lines < 0 {
        -lines
    } else {
        lines as int
    };
    if n < MAX_WHEEL_REPORTS {
        n as nat
    } else {
        MAX_WHEEL_REPORTS as nat
    }
}

/// What the wheel does after it has turned by so many lines. It is the program's
/// where that tracks the mouse, unless a modifier claims it for the terminal.
pub open spec fn wheel_action(
    lines: i32,
    mode: TermMode,
    claimed: bool,
    cell: Option<(usize, usize)>,
) -> WheelActionView {
    if lines == 0 {
        WheelActionView::Nothing
    } else if !mode.mouse_mode || claimed {
        WheelActionView::Scroll(lines)
    } else {
        match cell {
            None => WheelActionView::Nothing,
            Some((col, row)) => WheelActionView::Write(
                repeated(
                    report(
                        mode,
                        if lines > 0 {
                            WHEEL_UP
                        } else {
                            WHEEL_DOWN
                        },
                        col,
                        row,
                    ),
                    report_count(lines),
                ),
            ),
        }
    }
}

/// What the wheel does after it has turned by so many lines. `cell` is the one
/// under the pointer, counted from 0.
pub fn wheel(lines: i32, mode: TermMode, claimed: bool, cell: Option<(usize, usize)>) -> (r:
    WheelAction)
    requires
        match cell {
            Some((col, row)) => mode.sgr_mouse ==> col < usize::MAX && row < usize::MAX,
            None => true,
        },
    ensures
        r@ == wheel_action(lines, mode, claimed, cell),
{
    if lines == 0 {
        return WheelAction::Nothing;
    }
    if !mode.mouse_mode || claimed {
        return WheelAction::Scroll(lines);
    }
    match cell {
        None => WheelAction::Nothing,
        Some((col, row)) => {
            let button: u8 = if lines > 0 {
                WHEEL_UP
            } else {
                WHEEL_DOWN
            };
            let n: i32 = if lines >= MAX_WHEEL_REPORTS || lines <= -MAX_WHEEL_REPORTS {
                MAX_WHEEL_REPORTS
            } else if lines < 0 {
                -lines
            } else {
                lines
            };
            let one = mouse_report(mode, button, col, row);
            let mut bytes: Vec<u8> = Vec::new();
            assert(bytes@ =~= repeated(one@, 0));
            for i in 0..n
                invariant
                    0 <= i <= n,
                    bytes@ == repeated(one@, i as nat),
            {
                for k in 0..one.len()
                    invariant
                        bytes@ == repeated(one@, i as nat) + one@.take(k as int),
                {
                    bytes.push(one[k]);
                    assert(one@.take(k + 1) =~= one@.take(k as int).push(one@[k as int]));
                    assert(bytes@ =~= repeated(one@, i as nat) + one@.take(k + 1));
                }
                assert(one@.take(one@.len() as int) =~= one@);
            }
            WheelAction::Write(bytes)
        },
    }
}

/// A press or a release of the main button.
#[derive(Debug, Clone, Copy, PartialEq, Eq, Structural)]
pub struct ButtonEvent {
    pub pressed: bool,
    /// Whether it was in the terminal.
    pub inside: bool,
    /// Whether a modifier claimed it for the terminal.
    pub claimed: bool,
}

/// What is selected from a press on.
#[derive(Debug, Clone, Copy, PartialEq, Eq, Structural)]
pub enum SelectKind {
    Simple,
    Word,
    Lines,
}

/// What is done with the selection. A place is that of an event, by its index,
/// or that of the pointer.
#[derive(Debug, Clone, Copy, PartialEq, Eq, Structural)]
pub enum SelectCommand {
    Start(SelectKind, usize),
    Extend(usize),
    ExtendToPointer,
}

/// How many clicks were counted with a release.
#[derive(Debug, Clone, Copy, PartialEq, Eq, Structural)]
pub enum Clicks {
    One,
    Two,
    Three,
}

/// What a frame comes to.
#[derive(Debug)]
pub struct DragFrame {
    pub commands: Vec<SelectCommand>,
    /// Whether a selection goes on.
    pub selecting: bool,
    /// Whether the program must not see the button events of the frame.
    pub consumed: bool,
}

/// What a [`DragFrame`] stands for.
#[verifier::ext_equal]
pub struct DragFrameView {
    pub commands: Seq<SelectCommand>,
    pub selecting: bool,
    pub consumed: bool,
}

impl View for DragFrame {
    type V = DragFrameView;

    open spec fn view(&self) -> DragFrameView {
        DragFrameView {
            commands: self.commands@,
            selecting: self.selecting,
            consumed: self.consumed,
        }
    }
}

/// What is restarted by more than one click.
pub open spec fn restart(clicks: Clicks, i: usize) -> Seq<SelectCommand> {
    match clicks {
        Clicks::One => Seq::empty(),
        Clicks::Two => seq![SelectCommand::Start(SelectKind::Word, i)],
        Clicks::Three => seq![SelectCommand::Start(SelectKind::Lines, i)],
    }
}

/// What one event adds to a frame. A press that is claimed begins a selection; a
/// release ends it where it is, and more than one click restarts it with words
/// or lines.
pub open spec fn with_event(
    f: DragFrameView,
    i: usize,
    e: ButtonEvent,
    clicks: Clicks,
) -> DragFrameView {
    if e.pressed {
        if e.inside && e.claimed {
            DragFrameView {
                commands: f.commands.push(SelectCommand::Start(SelectKind::Simple, i)),
                selecting: true,
                consumed: true,
            }
        } else {
            f
        }
    } else if f.selecting {
        DragFrameView {
            commands: f.commands.push(SelectCommand::Extend(i)) + restart(clicks, i),
            selecting: false,
            consumed: true,
        }
    } else {
        f
    }
}

/// What the events of a frame come to, one after the other.
pub open spec fn after_buttons(
    selecting: bool,
    events: Seq<ButtonEvent>,
    clicks: Clicks,
) -> DragFrameView
    decreases events.len(),
{
    if events.len() == 0 {
        DragFrameView { commands: Seq::empty(), selecting, consumed: false }
    } else {
        with_event(
            after_buttons(selecting, events.drop_last(), clicks),
            (events.len() - 1) as usize,
            events.last(),
            clicks,
        )
    }
}

/// What a frame comes to. Where the program does not track the mouse, there is
/// nothing to claim, and nothing is done.
pub open spec fn drag_frame(
    selecting: bool,
    mode: TermMode,
    events: Seq<ButtonEvent>,
    clicks: Clicks,
    pointer: bool,
) -> DragFrameView {
    if !mode.mouse_mode {
        DragFrameView { commands: Seq::empty(), selecting: false, consumed: false }
    } else {
        let f = after_buttons(selecting, events, clicks);
        DragFrameView {
            commands: if f.selecting && pointer {
                f.commands.push(SelectCommand::ExtendToPointer)
            } else {
                f.commands
            },
            selecting: f.selecting,
            consumed: f.consumed || f.selecting,
        }
    }
}

/// Drives a selection that a modifier claims in a terminal whose program tracks
/// the mouse. `selecting` is whether one goes on, `pointer` whether the pointer
/// is known.
pub fn drag_select(
    selecting: bool,
    mode: TermMode,
    events: &Vec<ButtonEvent>,
    clicks: Clicks,
    pointer: bool,
) -> (r: DragFrame)
    ensures
        r@ == drag_frame(selecting, mode, events@, clicks, pointer),
{
    let mut f = DragFrame { commands: Vec::new(), selecting: false, consumed: false };
    assert(f.commands@ =~= Seq::<SelectCommand>::empty());
    if !mode.mouse_mode {
        return f;
    }
    f.selecting = selecting;
    assert(f@ =~= after_buttons(selecting, events@.take(0), clicks));
    for i in 0..events.len()
        invariant
            f@ == after_buttons(selecting, events@.take(i as int), clicks),
    {
        let e = events[i];
        proof {
            assert(events@.take(i + 1).drop_last() =~= events@.take(i as int));
            assert(events@.take(i + 1).last() == e);
        }
        let ghost g = f@;
        if e.pressed {
            if e.inside && e.claimed {
                f.selecting = true;
                f.consumed = true;
                f.commands.push(SelectCommand::Start(SelectKind::Simple, i));
            }
        } else if f.selecting {
            f.selecting = false;
            f.consumed = true;
            f.commands.push(SelectCommand::Extend(i));
            match clicks {
                Clicks::One => {},
                Clicks::Two => {
                    f.commands.push(SelectCommand::Start(SelectKind::Word, i));
                },
                Clicks::Three => {
                    f.commands.push(SelectCommand::Start(SelectKind::Lines, i));
                },
            }
        }
        assert(f@ =~= with_event(g, i, e, clicks));
    }
    assert(events@.take(events@.len() as int) =~= events@);
    if f.selecting {
        if pointer {
            f.commands.push(SelectCommand::ExtendToPointer);
        }
        f.consumed = true;
    }
    assert(f@ =~= drag_frame(selecting, mode, events@, clicks, pointer));
    f
}

/// Without a claim, a program that tracks the mouse sees every button event.
pub proof fn unclaimed_events_pass(events: Seq<ButtonEvent>, clicks: Clicks)
    requires
        forall|i: int| 0 <= i < events.len() ==> !(#[trigger] events[i]).claimed,
    ensures
        !after_buttons(false, events, clicks).consumed,
        !after_buttons(false, events, clicks).selecting,
        after_buttons(false, events, clicks).commands == Seq::<SelectCommand>::empty(),
    decreases events.len(),
{
    if events.len() > 0 {
        let t = events.drop_last();
        assert forall|i: int| 0 <= i < t.len() implies !(#[trigger] t[i]).claimed by {
            assert(t[i] == events[i]);
        }
        unclaimed_events_pass(t, clicks);
        assert(!events[events.len() - 1].claimed);
    }
}

// ---------------------------------------------------------------------------
// Copying
// ---------------------------------------------------------------------------

/// A cell of a terminal.
#[derive(Debug, Clone, Copy, PartialEq, Eq, Structural)]
pub struct Cell {
    pub line: i32,
    pub c: char,
    pub selected: bool,
    /// Whether it only pads a wide character.
    pub spacer: bool,
    /// Whether the line goes on in the next row.
    pub wrapped: bool,
}

/// Whether the bits of a cell's flags hold one of those of the cells that pad a
/// wide character, behind it or at the end of the row before it.
pub open spec fn pads_wide(bits: u16) -> bool {
    bits & 0x440 != 0
}

/// Whether the bits of a cell's flags hold that of a line that goes on.
pub open spec fn goes_on(bits: u16) -> bool {
    bits & 0x10 != 0
}

/// Reads the bits of an `alacritty_terminal::term::cell::Flags`, with its
/// `intersects` for the two spacers and its `contains` for `WRAPLINE`: whether
/// any bit of the spacers is set, and whether that of `WRAPLINE` is.
#[verifier::external_body]
fn flags_of_cell(bits: u16) -> (r: (bool, bool))
    ensures
        r.0 == pads_wide(bits),
        r.1 == goes_on(bits),
{
    let flags = alacritty_terminal::term::cell::Flags::from_bits_retain(bits);
    (
        flags.intersects(
            alacritty_terminal::term::cell::Flags::WIDE_CHAR_SPACER
                | alacritty_terminal::term::cell::Flags::LEADING_WIDE_CHAR_SPACER,
        ),
        flags.contains(alacritty_terminal::term::cell::Flags::WRAPLINE),
    )
}

impl Cell {
    /// By the bits of the cell's own flags.
    pub fn of_bits(line: i32, c: char, selected: bool, bits: u16) -> (r: Cell)
        ensures
            r == (Cell { line, c, selected, spacer: pads_wide(bits), wrapped: goes_on(bits) }),
    {
        let (spacer, wrapped) = flags_of_cell(bits);
        Cell { line, c, selected, spacer, wrapped }
    }
}

/// Whether a cell holds selected text.
pub open spec fn is_text(c: Cell) -> bool {
    c.selected && !c.spacer
}

/// The cells that hold selected text.
pub open spec fn text_cells(cells: Seq<Cell>) -> Seq<Cell> {
    cells.filter(|c: Cell| is_text(c))
}

/// The rows of some cells: what each holds, and whether its line goes on.
pub open spec fn rows_of(cells: Seq<Cell>) -> Seq<(Seq<char>, bool)>
    decreases cells.len(),
{
    if cells.len() == 0 {
        Seq::empty()
    } else {
        let t = cells.drop_last();
        let c = cells.last();
        let rest = rows_of(t);
        if t.len() > 0 && t.last().line == c.line && rest.len() > 0 {
            rest.drop_last().push((rest.last().0.push(c.c), rest.last().1 || c.wrapped))
        } else {
            rest.push((seq![c.c], c.wrapped))
        }
    }
}

/// The text of some rows, of which `last` is the index of the last: a row that
/// goes on is joined to the next, and every other ends with a newline, but for
/// the last, and without the blanks that pad it.
pub open spec fn rows_text(rows: Seq<(Seq<char>, bool)>, last: int) -> Seq<char>
    decreases rows.len(),
{
    if rows.len() == 0 {
        Seq::empty()
    } else {
        let rest = rows_text(rows.drop_last(), last);
        let row = rows.last();
        if row.1 {
            rest + row.0
        } else if rows.len() - 1 < last {
            rest + trim_right(row.0) + seq!['\n']
        } else {
            rest + trim_right(row.0)
        }
    }
}

/// The text of the selected cells.
pub open spec fn selected_text(cells: Seq<Cell>) -> Seq<char> {
    let rows = rows_of(text_cells(cells));
    rows_text(rows, rows.len() - 1)
}

/// The text of the selected cells, given in the order in which they are shown.
pub fn selection_text(cells: &Vec<Cell>) -> (r: String)
    ensures
        r@ == selected_text(cells@),
{
    let ghost p = |c: Cell| is_text(c);
    let mut rows: Vec<(Vec<char>, bool)> = Vec::new();
    let mut line: Option<i32> = None;
    proof {
        reveal(Seq::filter);
        assert(cells@.take(0).filter(p) =~= Seq::<Cell>::empty());
        assert(rows.deep_view() =~= rows_of(cells@.take(0).filter(p)));
    }
    for i in 0..cells.len()
        invariant
            p == (|c: Cell| is_text(c)),
            rows.deep_view() == rows_of(cells@.take(i as int).filter(p)),
            match line {
                None => cells@.take(i as int).filter(p).len() == 0,
                Some(l) => cells@.take(i as int).filter(p).len() > 0 && cells@.take(
                    i as int,
                ).filter(p).last().line == l && rows@.len() > 0,
            },
    {
        let cell = cells[i];
        let ghost t = cells@.take(i as int).filter(p);
        proof {
            reveal(Seq::filter);
            assert(cells@.take(i + 1).drop_last() =~= cells@.take(i as int));
            assert(cells@.take(i + 1).last() == cell);
        }
        if cell.selected && !cell.spacer {
            let ghost old_rows = rows.deep_view();
            assert(t.push(cell).drop_last() =~= t);
            let same_line = match line {
                Some(l) => l == cell.line,
                None => false,
            };
            if same_line {
                let (text, wrapped) = match rows.pop() {
                    Some(x) => x,
                    None => (Vec::new(), false),
                };
                assert(rows.deep_view() =~= old_rows.drop_last());
                assert(old_rows.last() == (text.deep_view(), wrapped));
                let mut text = text;
                let ghost before_text = text.deep_view();
                text.push(cell.c);
                assert(text.deep_view() =~= before_text.push(cell.c));
                let ghost x = (text.deep_view(), wrapped || cell.wrapped);
                rows.push((text, wrapped || cell.wrapped));
                assert(rows.deep_view() =~= old_rows.drop_last().push(x));
            } else {
                line = Some(cell.line);
                let mut text: Vec<char> = Vec::new();
                text.push(cell.c);
                assert(text.deep_view() =~= seq![cell.c]);
                rows.push((text, cell.wrapped));
                assert(rows.deep_view() =~= old_rows.push((seq![cell.c], cell.wrapped)));
            }
            assert(rows.deep_view() == rows_of(t.push(cell)));
        }
    }
    assert(cells@.take(cells@.len() as int) =~= cells@);
    let ghost all = rows.deep_view();
    let n = rows.len();
    let mut out = String::new();
    assert(out@ =~= rows_text(all.take(0), n - 1));
    for i in 0..n
        invariant
            n == rows@.len(),
            all == rows.deep_view(),
            out@ == rows_text(all.take(i as int), n - 1),
    {
        proof {
            assert(all.take(i + 1).drop_last() =~= all.take(i as int));
            assert(rows@[i as int].0.deep_view() =~= rows@[i as int].0@);
            assert(all.take(i + 1).last() == (rows@[i as int].0@, rows@[i as int].1));
        }
        let text = string_of(&rows[i].0);
        if rows[i].1 {
            out = cat(out.as_str(), text.as_str());
        } else {
            let cut = trim_end(text.as_str());
            out = cat(out.as_str(), cut.as_str());
            if i + 1 < n {
                let ghost o = out@;
                out.push('\n');
                assert(out@ =~= o + seq!['\n']);
            }
        }
    }
    assert(all.take(n as int) =~= all);
    out
}

// ---------------------------------------------------------------------------
// Dropped files
// ---------------------------------------------------------------------------

/// A character that needs no quotes in a shell.
pub open spec fn is_shell_safe(c: char) -> bool {
    is_alnum(c) || c == '/' || c == '.' || c == '_' || c == '-' || c == '+' || c == '=' || c == ','
        || c == ':'
}

/// A path as a word of a shell: as it is where that is safe, else in quotes, and
/// a quote in it is closed, escaped and reopened.
pub open spec fn shell_word(path: Seq<char>) -> Seq<char> {
    if path.len() > 0 && forall|i: int| 0 <= i < path.len() ==> is_shell_safe(#[trigger] path[i]) {
        path
    } else {
        "'"@ + replaced(path, '\'', "'\\''"@) + "'"@
    }
}

/// A path as a word of a shell.
pub fn shell_quote(path: &str) -> (r: String)
    ensures
        r@ == shell_word(path@),
{
    let cs = chars_of(path);
    let mut safe = cs.len() > 0;
    for i in 0..cs.len()
        invariant
            cs@ == path@,
            safe == (cs@.len() > 0 && forall|j: int|
                0 <= j < i ==> is_shell_safe(#[trigger] path@[j])),
    {
        let c = cs[i];
        let ok = is_ascii_alphanumeric(c) || c == '/' || c == '.' || c == '_' || c == '-' || c
            == '+' || c == '=' || c == ',' || c == ':';
        assert(ok == is_shell_safe(path@[i as int]));
        if !ok {
            safe = false;
        }
    }
    if safe {
        own(path)
    } else {
        let inner = replace(path, '\'', "'\\''");
        cat3("'", inner.as_str(), "'")
    }
}

/// What a shell makes of a word: text in single quotes is taken as it is, and
/// outside of them a backslash stands for the character behind it. None where
/// the word has an open quote, or a character that would not stand for itself.
pub open spec fn shell_reads(s: Seq<char>, in_quotes: bool) -> Option<Seq<char>>
    decreases s.len(),
{
    if s.len() == 0 {
        if in_quotes {
            None
        } else {
            Some(Seq::empty())
        }
    } else if s[0] == '\'' {
        shell_reads(s.skip(1), !in_quotes)
    } else if in_quotes || is_shell_safe(s[0]) {
        match shell_reads(s.skip(1), in_quotes) {
            Some(rest) => Some(seq![s[0]] + rest),
            None => None,
        }
    } else if s[0] == '\\' && s.len() > 1 {
        match shell_reads(s.skip(2), false) {
            Some(rest) => Some(seq![s[1]] + rest),
            None => None,
        }
    } else {
        None
    }
}

proof fn lemma_replaced_front(s: Seq<char>, c: char, with: Seq<char>)
    requires
        s.len() > 0,
    ensures
        replaced(s, c, with) == (if s[0] == c {
            with
        } else {
            seq![s[0]]
        }) + replaced(s.skip(1), c, with),
    decreases s.len(),
{
    let head = if s[0] == c {
        with
    } else {
        seq![s[0]]
    };
    if s.len() == 1 {
        assert(s.drop_last() =~= Seq::empty());
        assert(s.skip(1) =~= Seq::empty());
        assert(replaced(Seq::empty(), c, with) =~= Seq::empty());
        assert(replaced(s, c, with) =~= head + replaced(s.skip(1), c, with));
    } else {
        lemma_replaced_front(s.drop_last(), c, with);
        assert(s.drop_last().skip(1) =~= s.skip(1).drop_last());
        assert(s.skip(1).last() == s.last());
        assert(replaced(s, c, with) =~= head + replaced(s.skip(1), c, with));
    }
}

proof fn lemma_reads_quoted(path: Seq<char>)
    ensures
        shell_reads(replaced(path, '\'', "'\\''"@) + "'"@, true) == Some(path),
    decreases path.len(),
{
    reveal_strlit("'");
    reveal_strlit("'\\''");
    let q = "'"@;
    let esc = "'\\''"@;
    if path.len() == 0 {
        let s = replaced(path, '\'', esc) + q;
        assert(s =~= q);
        assert(s[0] == '\'');
        assert(s.skip(1) =~= Seq::<char>::empty());
        assert(path =~= Seq::<char>::empty());
        assert(shell_reads(s.skip(1), false) == Some(path));
    } else {
        let rest = path.skip(1);
        lemma_replaced_front(path, '\'', esc);
        lemma_reads_quoted(rest);
        let tail = replaced(rest, '\'', esc) + q;
        let s = replaced(path, '\'', esc) + q;
        assert(path =~= seq![path[0]] + rest);
        if path[0] == '\'' {
            assert(s =~= esc + tail);
            let a = s.skip(1);
            assert(s[0] == '\'');
            assert(a[0] == '\\' && a[1] == '\'');
            let b = a.skip(2);
            assert(b[0] == '\'');
            assert(b.skip(1) =~= tail);
            assert(shell_reads(b, false) == shell_reads(tail, true));
            assert(shell_reads(a, false) == Some(seq!['\''] + rest));
        } else {
            assert(s =~= seq![path[0]] + tail);
            assert(s.skip(1) =~= tail);
        }
    }
}

proof fn lemma_reads_safe(path: Seq<char>)
    requires
        forall|i: int| 0 <= i < path.len() ==> is_shell_safe(#[trigger] path[i]),
    ensures
        shell_reads(path, false) == Some(path),
    decreases path.len(),
{
    if path.len() == 0 {
        assert(path =~= Seq::<char>::empty());
    } else {
        let rest = path.skip(1);
        assert forall|i: int| 0 <= i < rest.len() implies is_shell_safe(#[trigger] rest[i]) by {
            assert(rest[i] == path[i + 1]);
        }
        assert(is_shell_safe(path[0]));
        lemma_reads_safe(rest);
        assert(path =~= seq![path[0]] + rest);
    }
}

/// A shell reads a quoted path as one word, and as that path.
pub proof fn shell_quote_law(path: Seq<char>)
    ensures
        shell_reads(shell_word(path), false) == Some(path),
{
    if path.len() > 0 && forall|i: int| 0 <= i < path.len() ==> is_shell_safe(#[trigger] path[i]) {
        lemma_reads_safe(path);
    } else {
        reveal_strlit("'");
        lemma_reads_quoted(path);
        let inner = replaced(path, '\'', "'\\''"@) + "'"@;
        assert(shell_word(path) =~= "'"@ + inner);
        assert(shell_word(path)[0] == '\'');
        assert(shell_word(path).skip(1) =~= inner);
    }
}

/// What is pasted for dropped files: their paths, quoted, each with a space
/// behind it.
pub open spec fn dropped(paths: Seq<Seq<char>>) -> Seq<char> {
    joined(paths.map_values(|p: Seq<char>| shell_word(p)), " "@).push(' ')
}

/// What is pasted for dropped files: their paths, quoted, each with a space
/// behind it.
pub fn dropped_text(paths: &Vec<String>) -> (r: String)
    ensures
        r@ == dropped(paths.deep_view()),
{
    let ghost v = paths.deep_view();
    let mut list: Vec<String> = Vec::new();
    for i in 0..paths.len()
        invariant
            v == paths.deep_view(),
            list@.len() == i,
            forall|j: int| 0 <= j < i ==> (#[trigger] list@[j])@ == shell_word(v[j]),
    {
        list.push(shell_quote(paths[i].as_str()));
    }
    assert(list.deep_view() =~= v.map_values(|p: Seq<char>| shell_word(p)));
    let mut s = join(&list, " ");
    let ghost g = s@;
    s.push(' ');
    assert(s@ =~= g.push(' '));
    s
}

/// The name of the file that dropped bytes are kept in: the moment of the drop
/// before the last component of the name that came with them.
pub open spec fn spilled(name: Seq<char>, millis: nat) -> Seq<char> {
    decimal_of(millis) + "-"@ + (match file_name_of(name) {
        Some(n) => n,
        None => "dropped"@,
    })
}

/// The name of the file that dropped bytes are kept in.
pub fn spill_name(name: &str, millis: u64) -> (r: String)
    ensures
        r@ == spilled(name@, millis as nat),
{
    let last = match file_name(name) {
        Some(n) => n,
        None => own("dropped"),
    };
    let stamp = decimal(millis);
    cat3(stamp.as_str(), "-", last.as_str())
}

proof fn lemma_names_plain(p: Seq<char>, lead: bool, i: int)
    requires
        0 <= i < names_of(p, lead).len(),
    ensures
        !names_of(p, lead)[i].contains('/'),
    decreases p.len(),
{
    lemma_before(p, '/');
    let n = before(p, '/') as int;
    let head = p.take(n);
    assert forall|k: int| 0 <= k < head.len() implies head[k] != '/' by {
        assert(p[k] != '/');
    }
    let rest: Seq<Seq<char>> = if n < p.len() {
        names_of(p.skip(n + 1), false)
    } else {
        Seq::empty()
    };
    let names = names_of(p, lead);
    if names.len() == rest.len() {
        if n < p.len() {
            lemma_names_plain(p.skip(n + 1), false, i);
        }
    } else if i > 0 {
        assert(names[i] == rest[i - 1]);
        lemma_names_plain(p.skip(n + 1), false, i - 1);
    }
}

proof fn lemma_decimal_plain(n: nat)
    ensures
        !decimal_of(n).contains('/'),
    decreases n,
{
    let d = decimal_of(n);
    if n >= 10 {
        lemma_decimal_plain(n / 10);
        assert forall|i: int| 0 <= i < d.len() implies d[i] != '/' by {
            if i < d.len() - 1 {
                assert(d[i] == decimal_of(n / 10)[i]);
                assert(decimal_of(n / 10).contains(d[i]));
            }
        }
    }
}

/// Whatever name came with dropped bytes, they are kept in the directory that is
/// meant for them.
pub proof fn spill_stays_inside(name: Seq<char>, millis: nat)
    ensures
        !spilled(name, millis).contains('/'),
{
    reveal_strlit("-");
    reveal_strlit("dropped");
    lemma_decimal_plain(millis);
    let d = decimal_of(millis);
    let last = match file_name_of(name) {
        Some(n) => n,
        None => "dropped"@,
    };
    if file_name_of(name) is Some {
        let c = components_of(name);
        if crate::paths::is_absolute(name) {
            let names = names_of(name, false);
            assert(c == seq![crate::paths::root()] + names);
            if names.len() > 0 {
                assert(c.last() == names.last());
                lemma_names_plain(name, false, names.len() - 1);
            }
        } else {
            lemma_names_plain(name, true, c.len() - 1);
        }
    }
    assert(!last.contains('/'));
    let s = spilled(name, millis);
    assert forall|i: int| 0 <= i < s.len() implies s[i] != '/' by {
        if i < d.len() {
            assert(s[i] == d[i]);
            assert(d.contains(d[i]));
        } else if i == d.len() {
            assert(s[i] == '-');
        } else {
            assert(s[i] == last[i - d.len() - 1]);
            assert(last.contains(last[i - d.len() - 1]));
        }
    }
}

// ---------------------------------------------------------------------------
// What is copied, pasted and sent
// ---------------------------------------------------------------------------

/// The parts of the copied text: each row without the blanks at its end.
spec fn trimmed_rows(rows: Seq<(Seq<char>, bool)>) -> Seq<Seq<char>> {
    rows.map_values(|r: (Seq<char>, bool)| trim_right(r.0))
}

proof fn lemma_unwrapped_rows(rows: Seq<(Seq<char>, bool)>, last: int)
    requires
        rows.len() <= last + 1,
        forall|i: int| 0 <= i < rows.len() ==> !(#[trigger] rows[i]).1,
    ensures
        rows_text(rows, last) == (if rows.len() == 0 {
            Seq::empty()
        } else if rows.len() == last + 1 {
            joined(trimmed_rows(rows), seq!['\n'])
        } else {
            joined(trimmed_rows(rows), seq!['\n']).push('\n')
        }),
    decreases rows.len(),
{
    if rows.len() > 0 {
        let t = rows.drop_last();
        let k = rows.len() - 1;
        assert(!rows[k].1);
        assert forall|i: int| 0 <= i < t.len() implies !(#[trigger] t[i]).1 by {
            assert(t[i] == rows[i]);
        }
        lemma_unwrapped_rows(t, last);
        let parts = trimmed_rows(rows);
        assert(parts.drop_last() =~= trimmed_rows(t));
        assert(parts.last() == trim_right(rows.last().0));
        let text = rows_text(rows, last);
        if rows.len() == 1 {
            assert(joined(parts, seq!['\n']) == parts[0]);
            assert(text =~= if rows.len() == last + 1 {
                parts[0]
            } else {
                parts[0].push('\n')
            });
        } else {
            let whole = joined(trimmed_rows(t), seq!['\n']) + seq!['\n'] + parts.last();
            assert(joined(parts, seq!['\n']) == whole);
            assert(rows_text(t, last) == joined(trimmed_rows(t), seq!['\n']).push('\n'));
            assert(text =~= if rows.len() == last + 1 {
                whole
            } else {
                whole.push('\n')
            });
        }
    }
}

/// Where no line goes on in the next row, the copied text split at its newlines
/// has as many parts as there are selected rows, an empty one too, and each part
/// is its row without the blanks at its end.
pub proof fn copied_rows(cells: Seq<Cell>)
    requires
        text_cells(cells).len() > 0,
        forall|i: int| 0 <= i < cells.len() ==> !(#[trigger] cells[i]).wrapped && cells[i].c != '\n',
    ensures
        split(selected_text(cells), '\n').len() == rows_of(text_cells(cells)).len(),
        forall|i: int|
            0 <= i < rows_of(text_cells(cells)).len() ==> #[trigger] split(
                selected_text(cells),
                '\n',
            )[i] == trim_right(rows_of(text_cells(cells))[i].0),
{
    let t = text_cells(cells);
    lemma_text_cells(cells);
    lemma_rows_plain(t);
    let rows = rows_of(t);
    lemma_unwrapped_rows(rows, rows.len() - 1);
    let parts = trimmed_rows(rows);
    assert forall|i: int| 0 <= i < parts.len() implies !(#[trigger] parts[i]).contains('\n') by {
        trim_right_law(rows[i].0);
        if parts[i].contains('\n') {
            let k = choose|k: int| 0 <= k < parts[i].len() && parts[i][k] == '\n';
            assert(rows[i].0[k] == '\n');
        }
    }
    split_joined(parts, '\n');
}

proof fn lemma_text_cells(cells: Seq<Cell>)
    requires
        forall|i: int| 0 <= i < cells.len() ==> !(#[trigger] cells[i]).wrapped && cells[i].c != '\n',
    ensures
        forall|i: int|
            0 <= i < text_cells(cells).len() ==> !(#[trigger] text_cells(cells)[i]).wrapped
                && text_cells(cells)[i].c != '\n',
    decreases cells.len(),
{
    reveal(Seq::filter);
    if cells.len() > 0 {
        let t = cells.drop_last();
        assert forall|i: int| 0 <= i < t.len() implies !(#[trigger] t[i]).wrapped && t[i].c
            != '\n' by {
            assert(t[i] == cells[i]);
        }
        lemma_text_cells(t);
        let last = cells[cells.len() - 1];
        assert(!last.wrapped && last.c != '\n');
        let (rest, all) = (text_cells(t), text_cells(cells));
        assert(all == if is_text(last) {
            rest.push(last)
        } else {
            rest
        });
        assert forall|i: int| 0 <= i < all.len() implies !(#[trigger] all[i]).wrapped && all[i].c
            != '\n' by {
            if i < rest.len() {
                assert(all[i] == rest[i]);
            }
        }
    }
}

proof fn lemma_rows_plain(cells: Seq<Cell>)
    requires
        forall|i: int| 0 <= i < cells.len() ==> !(#[trigger] cells[i]).wrapped && cells[i].c != '\n',
    ensures
        cells.len() > 0 ==> rows_of(cells).len() > 0,
        forall|i: int|
            0 <= i < rows_of(cells).len() ==> !(#[trigger] rows_of(cells)[i]).1
                && !rows_of(cells)[i].0.contains('\n'),
    decreases cells.len(),
{
    if cells.len() > 0 {
        let t = cells.drop_last();
        assert forall|i: int| 0 <= i < t.len() implies !(#[trigger] t[i]).wrapped && t[i].c
            != '\n' by {
            assert(t[i] == cells[i]);
        }
        lemma_rows_plain(t);
        let c = cells[cells.len() - 1];
        assert(!c.wrapped && c.c != '\n');
        let rest = rows_of(t);
        let rows = rows_of(cells);
        assert forall|i: int| 0 <= i < rows.len() implies !(#[trigger] rows[i]).1
            && !rows[i].0.contains('\n') by {
            if i < rest.len() && rows[i] == rest[i] {
                assert(!rest[i].1);
            } else if t.len() > 0 && t.last().line == c.line && rest.len() > 0 {
                let before = rest[rest.len() - 1];
                assert(!before.1 && !before.0.contains('\n'));
                if rows[i].0.contains('\n') {
                    let k = choose|k: int| 0 <= k < rows[i].0.len() && rows[i].0[k] == '\n';
                    assert(before.0[k] == '\n');
                }
            }
        }
    }
}

/// Cells of one line make one row: all of them in order, and the line goes on where
/// one of them says so.
pub proof fn one_line_one_row(cells: Seq<Cell>, line: i32)
    requires
        cells.len() > 0,
        forall|i: int| 0 <= i < cells.len() ==> (#[trigger] cells[i]).line == line,
    ensures
        rows_of(cells).len() == 1,
        rows_of(cells)[0].0 == cells.map_values(|c: Cell| c.c),
        rows_of(cells)[0].1 <==> exists|i: int| 0 <= i < cells.len() && (#[trigger] cells[i]).wrapped,
    decreases cells.len(),
{
    let t = cells.drop_last();
    let c = cells[cells.len() - 1];
    let chars = cells.map_values(|c: Cell| c.c);
    if t.len() > 0 {
        assert forall|i: int| 0 <= i < t.len() implies (#[trigger] t[i]).line == line by {
            assert(t[i] == cells[i]);
        }
        one_line_one_row(t, line);
        assert(t[t.len() - 1].line == line && c.line == line);
        assert(chars =~= t.map_values(|c: Cell| c.c).push(c.c));
        if rows_of(t)[0].1 {
            let i = choose|i: int| 0 <= i < t.len() && (#[trigger] t[i]).wrapped;
            assert(cells[i].wrapped);
        }
        if exists|i: int| 0 <= i < cells.len() && (#[trigger] cells[i]).wrapped {
            let i = choose|i: int| 0 <= i < cells.len() && (#[trigger] cells[i]).wrapped;
            if i < t.len() {
                assert(t[i].wrapped);
            }
        }
    } else {
        assert(chars =~= seq![c.c]);
        assert(rows_of(t).len() == 0);
        if c.wrapped {
            assert(cells[0].wrapped);
        }
    }
}

/// Where the line changes, a new row begins: the rows of all the cells are those
/// before the change and those from it on.
pub proof fn rows_part_at_lines(a: Seq<Cell>, b: Seq<Cell>)
    requires
        a.len() > 0,
        b.len() > 0,
        a.last().line != b[0].line,
    ensures
        rows_of(a + b) == rows_of(a) + rows_of(b),
    decreases b.len(),
{
    let s = a + b;
    let t = b.drop_last();
    let c = b.last();
    assert(s.drop_last() =~= a + t);
    assert(s.last() == c);
    if t.len() > 0 {
        assert(t[0] == b[0]);
        rows_part_at_lines(a, t);
        assert((a + t).last() == t.last());
        lemma_rows_some(t);
        assert((rows_of(a) + rows_of(t)).last() == rows_of(t).last());
        assert((rows_of(a) + rows_of(t)).drop_last() =~= rows_of(a) + rows_of(t).drop_last());
        assert(rows_of(s) =~= rows_of(a) + rows_of(b));
    } else {
        assert(a + t =~= a);
        assert(rows_of(t).len() == 0);
        assert(rows_of(s) =~= rows_of(a) + rows_of(b));
    }
}

proof fn lemma_rows_some(cells: Seq<Cell>)
    ensures
        cells.len() > 0 ==> rows_of(cells).len() > 0,
    decreases cells.len(),
{
    if cells.len() > 0 {
        lemma_rows_some(cells.drop_last());
    }
}

/// Where every line goes on in the next row, the copied text is what the selected
/// cells hold, those left out that only pad a wide character, with nothing cut off
/// and nothing between.
pub proof fn wrapped_rows_copied_whole(cells: Seq<Cell>)
    requires
        forall|i: int| 0 <= i < cells.len() ==> (#[trigger] cells[i]).wrapped,
    ensures
        selected_text(cells) == cells.filter(|c: Cell| c.selected && !c.spacer).map_values(
            |c: Cell| c.c,
        ),
{
    let t = text_cells(cells);
    assert(t == cells.filter(|c: Cell| c.selected && !c.spacer)) by {
        lemma_same_filter(cells);
    }
    lemma_all_wrapped(cells);
    lemma_whole_rows(t);
    let rows = rows_of(t);
    lemma_whole_text(rows, rows.len() - 1);
}

proof fn lemma_same_filter(cells: Seq<Cell>)
    ensures
        text_cells(cells) == cells.filter(|c: Cell| c.selected && !c.spacer),
    decreases cells.len(),
{
    reveal(Seq::filter);
    if cells.len() > 0 {
        lemma_same_filter(cells.drop_last());
    }
}

proof fn lemma_all_wrapped(cells: Seq<Cell>)
    requires
        forall|i: int| 0 <= i < cells.len() ==> (#[trigger] cells[i]).wrapped,
    ensures
        forall|i: int| 0 <= i < text_cells(cells).len() ==> (#[trigger] text_cells(cells)[i]).wrapped,
    decreases cells.len(),
{
    reveal(Seq::filter);
    if cells.len() > 0 {
        let t = cells.drop_last();
        assert forall|i: int| 0 <= i < t.len() implies (#[trigger] t[i]).wrapped by {
            assert(t[i] == cells[i]);
        }
        lemma_all_wrapped(t);
        let last = cells[cells.len() - 1];
        assert(last.wrapped);
        let (rest, all) = (text_cells(t), text_cells(cells));
        assert(all == if is_text(last) {
            rest.push(last)
        } else {
            rest
        });
        assert forall|i: int| 0 <= i < all.len() implies (#[trigger] all[i]).wrapped by {
            if i < rest.len() {
                assert(all[i] == rest[i]);
            }
        }
    }
}

/// What some rows hold, one after the other.
spec fn whole_rows(rows: Seq<(Seq<char>, bool)>) -> Seq<char>
    decreases rows.len(),
{
    if rows.len() == 0 {
        Seq::empty()
    } else {
        whole_rows(rows.drop_last()) + rows.last().0
    }
}

proof fn lemma_whole_rows(cells: Seq<Cell>)
    requires
        forall|i: int| 0 <= i < cells.len() ==> (#[trigger] cells[i]).wrapped,
    ensures
        whole_rows(rows_of(cells)) == cells.map_values(|c: Cell| c.c),
        forall|i: int| 0 <= i < rows_of(cells).len() ==> (#[trigger] rows_of(cells)[i]).1,
    decreases cells.len(),
{
    let chars = cells.map_values(|c: Cell| c.c);
    if cells.len() > 0 {
        let t = cells.drop_last();
        let c = cells[cells.len() - 1];
        assert(c.wrapped);
        assert forall|i: int| 0 <= i < t.len() implies (#[trigger] t[i]).wrapped by {
            assert(t[i] == cells[i]);
        }
        lemma_whole_rows(t);
        assert(chars =~= t.map_values(|c: Cell| c.c).push(c.c));
        let rest = rows_of(t);
        let rows = rows_of(cells);
        if t.len() > 0 && t.last().line == c.line && rest.len() > 0 {
            assert(rows.drop_last() =~= rest.drop_last());
            assert(whole_rows(rows) =~= whole_rows(rest).push(c.c));
            assert forall|i: int| 0 <= i < rows.len() implies (#[trigger] rows[i]).1 by {
                if i < rows.len() - 1 {
                    assert(rest[i].1);
                }
            }
        } else {
            assert(rows.drop_last() =~= rest);
            assert(whole_rows(rows) =~= whole_rows(rest).push(c.c));
        }
    } else {
        assert(chars =~= Seq::empty());
    }
}

proof fn lemma_whole_text(rows: Seq<(Seq<char>, bool)>, last: int)
    requires
        forall|i: int| 0 <= i < rows.len() ==> (#[trigger] rows[i]).1,
    ensures
        rows_text(rows, last) == whole_rows(rows),
    decreases rows.len(),
{
    if rows.len() > 0 {
        let t = rows.drop_last();
        assert(rows[rows.len() - 1].1);
        assert forall|i: int| 0 <= i < t.len() implies (#[trigger] t[i]).1 by {
            assert(t[i] == rows[i]);
        }
        lemma_whole_text(t, last);
    }
}

/// A fenced paste is the text between the two marks, with every escape character
/// taken out and nothing else. Without the fence, the text is typed.
pub proof fn fenced_text(text: Seq<char>, mode: TermMode)
    ensures
        mode.bracketed_paste ==> pasted(text, mode) == "\x1b[200~"@ + text.filter(
            |c: char| c != '\x1b',
        ) + "\x1b[201~"@,
        !mode.bracketed_paste && !text.contains('\n') ==> pasted(text, mode) == text,
        !mode.bracketed_paste ==> pasted(text, mode) == entered(text),
{
    removed_law(text, '\x1b');
    if !text.contains('\n') {
        typed_lines(text, Seq::empty());
    }
}

/// Text that is pasted without the fence is typed: each of its lines is as it was,
/// and a carriage return stands for the end of each, whether that was a line feed
/// alone or after a carriage return.
pub proof fn typed_lines(line: Seq<char>, rest: Seq<char>)
    requires
        !line.contains('\n'),
    ensures
        entered(line) == line,
        entered(line.push('\n') + rest) == (if line.len() > 0 && line.last() == '\r' {
            line.drop_last()
        } else {
            line
        }).push('\r') + entered(rest),
    decreases line.len(),
{
    let s = line.push('\n') + rest;
    if line.len() == 0 {
        assert(s.skip(1) =~= rest);
        assert(s[0] == '\n');
        assert(entered(s) =~= line.push('\r') + entered(rest));
    } else {
        let t = line.skip(1);
        assert(line[0] != '\n') by {
            if line[0] == '\n' {
                assert(line.contains('\n'));
            }
        }
        assert(!t.contains('\n')) by {
            if t.contains('\n') {
                let i = choose|i: int| 0 <= i < t.len() && t[i] == '\n';
                assert(line[i + 1] == '\n');
            }
        }
        if line.len() > 1 {
            assert(line[1] != '\n') by {
                if line[1] == '\n' {
                    assert(line.contains('\n'));
                }
            }
        }
        typed_lines(t, rest);
        assert(seq![line[0]] + t =~= line);
        assert(s.skip(1) =~= t.push('\n') + rest);
        assert(s[0] == line[0]);
        if line.len() == 1 {
            assert(s[1] == '\n');
            assert(s.skip(2) =~= rest);
            let none: Seq<char> = Seq::empty();
            assert(t =~= none);
            assert(entered(t.push('\n') + rest) =~= seq!['\r'] + entered(rest));
            if line[0] == '\r' {
                assert(line.drop_last() =~= none);
                assert(entered(s) =~= none.push('\r') + entered(rest));
            } else {
                assert(entered(s) =~= line.push('\r') + entered(rest));
            }
        } else {
            assert(s[1] == line[1]);
            assert(t.last() == line.last());
            let u = if line.last() == '\r' {
                t.drop_last()
            } else {
                t
            };
            let v = if line.last() == '\r' {
                line.drop_last()
            } else {
                line
            };
            assert(v =~= seq![line[0]] + u);
            assert(entered(s) =~= v.push('\r') + entered(rest));
        }
    }
}

/// A short report names its button and its cell, both counted from 1 and shifted
/// into the printable range; it is sent exactly where the cell can be named so.
pub proof fn short_report(mode: TermMode, button: u8, col: usize, row: usize)
    requires
        !mode.sgr_mouse,
        button <= 223,
    ensures
        report(mode, button, col, row).len() == (if col + 1 + 32 <= 255 && row + 1 + 32 <= 255 {
            6nat
        } else {
            0nat
        }),
        report(mode, button, col, row).len() > 0 ==> report(mode, button, col, row).take(3)
            == seq![0x1bu8, 0x5bu8, 0x4du8] && report(mode, button, col, row)[3] - 32 == button
            && report(mode, button, col, row)[4] - 32 == col + 1 && report(mode, button, col, row)[5]
            - 32 == row + 1,
{
    let r = report(mode, button, col, row);
    if r.len() > 0 {
        assert(r.take(3) =~= seq![0x1bu8, 0x5bu8, 0x4du8]);
    }
}

/// What the wheel sends is one report over and over: as many as there are lines,
/// but no more than ten, each for the button that stands for its direction and
/// for the cell under the pointer.
pub proof fn wheel_reports(
    lines: i32,
    mode: TermMode,
    cell: (usize, usize),
    k: int,
)
    requires
        lines != 0,
        mode.mouse_mode,
    ensures
        ({
            let r = report(
                mode,
                if lines > 0 {
                    64u8
                } else {
                    65u8
                },
                cell.0,
                cell.1,
            );
            let n: int = if -10 <= lines <= 10 {
                if lines > 0 {
                    lines as int
                } else {
                    -lines
                }
            } else {
                10
            };
            let w = wheel_action(lines, mode, false, Some(cell));
            &&& w is Write
            &&& w->Write_0.len() == n * r.len()
            &&& 0 <= k < n ==> w->Write_0.subrange(k * r.len(), (k + 1) * r.len()) == r
        }),
        forall|c: Option<(usize, usize)>| #[trigger]
            wheel_action(lines, mode, true, c) == WheelActionView::Scroll(lines),
        wheel_action(lines, mode, false, None) == WheelActionView::Nothing,
{
    let r = report(
        mode,
        if lines > 0 {
            64u8
        } else {
            65u8
        },
        cell.0,
        cell.1,
    );
    lemma_repeated(r, report_count(lines), k);
}

proof fn lemma_repeated(s: Seq<u8>, n: nat, k: int)
    ensures
        repeated(s, n).len() == n * s.len(),
        0 <= k < n ==> repeated(s, n).subrange(k * s.len(), (k + 1) * s.len()) == s,
    decreases n,
{
    let m = s.len() as int;
    if n > 0 {
        let rest = repeated(s, (n - 1) as nat);
        let all = rest + s;
        lemma_repeated(s, (n - 1) as nat, k);
        assert(n * m == (n - 1) * m + m) by (nonlinear_arith);
        assert((k + 1) * m == k * m + m) by (nonlinear_arith);
        if 0 <= k < n - 1 {
            assert(0 <= k * m && (k + 1) * m <= (n - 1) * m) by (nonlinear_arith)
                requires
                    0 <= k < n - 1,
                    m >= 0,
            ;
            assert(all.subrange(k * m, (k + 1) * m) =~= rest.subrange(k * m, (k + 1) * m));
        } else if k == n - 1 {
            assert(rest.len() == k * m);
            assert(all.subrange(k * m, (k + 1) * m) =~= s);
        }
    } else {
        assert(0 * m == 0);
    }
}

/// Without a program that tracks the mouse, the wheel scrolls the terminal.
pub proof fn wheel_scrolls(lines: i32, mode: TermMode, claimed: bool, cell: Option<(usize, usize)>)
    requires
        lines != 0,
        !mode.mouse_mode,
    ensures
        wheel_action(lines, mode, claimed, cell) == WheelActionView::Scroll(lines),
        wheel_action(0, mode, claimed, cell) == WheelActionView::Nothing,
{
}

/// A claimed press begins a selection where it is, and nothing else begins a plain
/// one. A selection goes on exactly where one was begun, or went on before, and the
/// button has not been released since; a frame is consumed exactly where something
/// is done in it.
pub proof fn selection_goes_on(selecting: bool, events: Seq<ButtonEvent>, clicks: Clicks, i: usize)
    requires
        events.len() <= usize::MAX,
    ensures
        after_buttons(selecting, events, clicks).commands.contains(
            SelectCommand::Start(SelectKind::Simple, i),
        ) <==> i < events.len() && events[i as int].pressed && events[i as int].inside
            && events[i as int].claimed,
        after_buttons(selecting, events, clicks).selecting <==> (selecting && forall|k: int|
            0 <= k < events.len() ==> (#[trigger] events[k]).pressed) || exists|p: int|
            0 <= p < events.len() && (#[trigger] events[p]).pressed && events[p].inside
                && events[p].claimed && forall|k: int|
                p < k < events.len() ==> (#[trigger] events[k]).pressed,
        after_buttons(selecting, events, clicks).consumed <==> after_buttons(
            selecting,
            events,
            clicks,
        ).commands.len() > 0,
        i < events.len() ==> (after_buttons(selecting, events, clicks).commands.contains(
            SelectCommand::Extend(i),
        ) <==> !events[i as int].pressed && after_buttons(
            selecting,
            events.take(i as int),
            clicks,
        ).selecting),
    decreases events.len(),
{
    if events.len() > 0 {
        let t = events.drop_last();
        let n = (events.len() - 1) as int;
        let e = events[n];
        selection_goes_on(selecting, t, clicks, i);
        lemma_commands_below(selecting, t, clicks);
        let f = after_buttons(selecting, t, clicks);
        let g = after_buttons(selecting, events, clicks);
        assert(g == with_event(f, n as usize, e, clicks));
        assert forall|k: int| 0 <= k < n implies t[k] == #[trigger] events[k] by {}
        assert(events.take(n) =~= t);
        if i < n {
            assert(events.take(i as int) =~= t.take(i as int));
        }
        let start = SelectCommand::Start(SelectKind::Simple, i);
        let extend = SelectCommand::Extend(i);
        assert(forall|c: SelectCommand| f.commands.contains(c) ==> place(c) < n);
        assert forall|c: SelectCommand| f.commands.contains(c) implies g.commands.contains(c) by {
            let k = choose|k: int| 0 <= k < f.commands.len() && f.commands[k] == c;
            assert(g.commands[k] == c);
        }
        assert forall|c: SelectCommand| g.commands.contains(c) && !f.commands.contains(c) implies place(
            c,
        ) == n && (c == SelectCommand::Start(SelectKind::Simple, n as usize) && e.pressed && e.inside
            && e.claimed || !e.pressed && f.selecting && c != SelectCommand::Start(
            SelectKind::Simple,
            n as usize,
        )) by {
            let k = choose|k: int| 0 <= k < g.commands.len() && g.commands[k] == c;
            if k < f.commands.len() {
                assert(f.commands[k] == c);
            }
        }
        if e.pressed && e.inside && e.claimed {
            assert(g.commands[f.commands.len() as int] == SelectCommand::Start(
                SelectKind::Simple,
                n as usize,
            ));
            assert(events[n].pressed);
        }
        if !e.pressed && f.selecting {
            assert(g.commands[f.commands.len() as int] == SelectCommand::Extend(n as usize));
            assert(g.commands.contains(SelectCommand::Extend(n as usize)));
        }
        if f.commands.contains(extend) {
            assert(place(extend) < n);
            assert(g.commands.contains(extend));
        }
        if g.commands.contains(extend) && !f.commands.contains(extend) {
            assert(place(extend) == n);
        }
        if i < n {
            assert(g.commands.contains(extend) <==> f.commands.contains(extend));
            assert(t[i as int] == events[i as int]);
        } else if i == n {
            assert(events.take(i as int) == t);
            assert(!f.commands.contains(extend));
            assert(g.commands.contains(extend) <==> !e.pressed && f.selecting);
        }
        if e.pressed && f.selecting && !(selecting && forall|k: int|
            0 <= k < t.len() ==> (#[trigger] t[k]).pressed) {
            let p = choose|p: int|
                0 <= p < t.len() && (#[trigger] t[p]).pressed && t[p].inside && t[p].claimed
                    && forall|k: int| p < k < t.len() ==> (#[trigger] t[k]).pressed;
            assert(events[p].pressed && events[p].inside && events[p].claimed);
            assert forall|k: int| p < k < events.len() implies (#[trigger] events[k]).pressed by {
                if k < n {
                    assert(t[k].pressed);
                }
            }
        }
        if exists|p: int|
            0 <= p < events.len() && (#[trigger] events[p]).pressed && events[p].inside
                && events[p].claimed && forall|k: int|
                p < k < events.len() ==> (#[trigger] events[k]).pressed {
            let p = choose|p: int|
                0 <= p < events.len() && (#[trigger] events[p]).pressed && events[p].inside
                    && events[p].claimed && forall|k: int|
                    p < k < events.len() ==> (#[trigger] events[k]).pressed;
            if p < n {
                assert(events[n].pressed);
                assert(t[p].pressed && t[p].inside && t[p].claimed);
                assert forall|k: int| p < k < t.len() implies (#[trigger] t[k]).pressed by {
                    assert(events[k].pressed);
                }
            }
        }
        if selecting && forall|k: int| 0 <= k < events.len() ==> (#[trigger] events[k]).pressed {
            assert(events[n].pressed);
            assert forall|k: int| 0 <= k < t.len() implies (#[trigger] t[k]).pressed by {
                assert(events[k].pressed);
            }
        }
    }
}

/// The event that a command belongs to.
spec fn place(c: SelectCommand) -> int {
    match c {
        SelectCommand::Start(_, i) => i as int,
        SelectCommand::Extend(i) => i as int,
        SelectCommand::ExtendToPointer => -1,
    }
}

proof fn lemma_commands_below(selecting: bool, events: Seq<ButtonEvent>, clicks: Clicks)
    requires
        events.len() <= usize::MAX,
    ensures
        forall|c: SelectCommand|
            after_buttons(selecting, events, clicks).commands.contains(c) ==> place(c)
                < events.len(),
    decreases events.len(),
{
    if events.len() > 0 {
        let t = events.drop_last();
        lemma_commands_below(selecting, t, clicks);
        let f = after_buttons(selecting, t, clicks);
        let g = after_buttons(selecting, events, clicks);
        assert forall|c: SelectCommand| g.commands.contains(c) implies place(c) < events.len() by {
            let k = choose|k: int| 0 <= k < g.commands.len() && g.commands[k] == c;
            if k < f.commands.len() {
                assert(f.commands[k] == c);
                assert(f.commands.contains(c));
            }
        }
    }
}

/// A release after two clicks selects words, after three lines, where it is; and
/// while the selection goes on, it follows the pointer.
pub proof fn clicks_select(selecting: bool, mode: TermMode, events: Seq<ButtonEvent>, pointer: bool)
    requires
        mode.mouse_mode,
        events.len() > 0,
        events.len() <= usize::MAX,
        !events.last().pressed,
        after_buttons(selecting, events.drop_last(), Clicks::Two).selecting,
        after_buttons(selecting, events.drop_last(), Clicks::Three).selecting,
        after_buttons(selecting, events.drop_last(), Clicks::One).selecting,
    ensures
        ({
            let at = (events.len() - 1) as usize;
            let one = drag_frame(selecting, mode, events, Clicks::One, pointer);
            let two = drag_frame(selecting, mode, events, Clicks::Two, pointer);
            let three = drag_frame(selecting, mode, events, Clicks::Three, pointer);
            &&& one.commands.last() == SelectCommand::Extend(at)
            &&& two.commands.last() == SelectCommand::Start(SelectKind::Word, at)
            &&& three.commands.last() == SelectCommand::Start(SelectKind::Lines, at)
            &&& !one.selecting && !two.selecting && !three.selecting
            &&& one.consumed && two.consumed && three.consumed
        }),
{
}

/// What a frame comes to beyond its button events: a selection that goes on follows
/// the pointer where that is known, and consumes the frame. Without a program that
/// tracks the mouse, nothing is claimed.
pub proof fn drag_follows_pointer(
    selecting: bool,
    mode: TermMode,
    events: Seq<ButtonEvent>,
    clicks: Clicks,
    pointer: bool,
)
    ensures
        !mode.mouse_mode ==> drag_frame(selecting, mode, events, clicks, pointer).commands.len() == 0
            && !drag_frame(selecting, mode, events, clicks, pointer).selecting && !drag_frame(
            selecting,
            mode,
            events,
            clicks,
            pointer,
        ).consumed,
        mode.mouse_mode ==> ({
            let f = after_buttons(selecting, events, clicks);
            let g = drag_frame(selecting, mode, events, clicks, pointer);
            &&& g.selecting == f.selecting
            &&& g.consumed == (f.consumed || f.selecting)
            &&& f.commands.is_prefix_of(g.commands)
            &&& g.commands.len() == f.commands.len() + (if f.selecting && pointer {
                1int
            } else {
                0int
            })
            &&& f.selecting && pointer ==> g.commands.last() == SelectCommand::ExtendToPointer
        }),
{
    if mode.mouse_mode {
        let f = after_buttons(selecting, events, clicks);
        let g = drag_frame(selecting, mode, events, clicks, pointer);
        assert(f.commands =~= g.commands.take(f.commands.len() as int));
    }
}

/// The file that dropped bytes are kept in bears the moment of the drop and ends
/// with the name of the file that was dropped.
pub proof fn spill_keeps_name(name: Seq<char>, millis: nat)
    ensures
        decimal_of(millis).is_prefix_of(spilled(name, millis)),
        file_name_of(name) is Some ==> file_name_of(name)->0.is_suffix_of(spilled(name, millis)),
        spilled(name, millis).len() > decimal_of(millis).len(),
{
    reveal_strlit("-");
    reveal_strlit("dropped");
    let s = spilled(name, millis);
    let d = decimal_of(millis);
    assert(d =~= s.take(d.len() as int));
    if file_name_of(name) is Some {
        let f = file_name_of(name)->0;
        assert(f =~= s.subrange(s.len() - f.len(), s.len() as int));
    }
}

/// Each file that is dropped adds its path as one word, which a shell reads as that
/// path, and a space that parts it from what is typed next.
pub proof fn dropped_one_by_one(paths: Seq<Seq<char>>, path: Seq<char>)
    ensures
        paths.len() > 0 ==> dropped(paths.push(path)) == dropped(paths) + shell_word(path) + " "@,
        dropped(seq![path]) == shell_word(path) + " "@,
        shell_reads(shell_word(path), false) == Some(path),
{
    reveal_strlit(" ");
    shell_quote_law(path);
    let f = |p: Seq<char>| shell_word(p);
    let m = paths.map_values(f);
    let n = paths.push(path).map_values(f);
    assert(n =~= m.push(shell_word(path)));
    assert(n.drop_last() =~= m);
    assert(n.last() == shell_word(path));
    if paths.len() > 0 {
        assert(dropped(paths.push(path)) =~= dropped(paths) + shell_word(path) + " "@);
    }
    let one = seq![path].map_values(f);
    assert(one =~= seq![shell_word(path)]);
    assert(dropped(seq![path]) =~= shell_word(path) + " "@);
}

/// A path of letters, digits and the usual signs is a word of a shell as it is; with
/// any other character in it, or none at all, it stands in quotes.
pub proof fn plain_paths_as_they_are(path: Seq<char>)
    ensures
        path.len() > 0 && (forall|i: int|
            0 <= i < path.len() ==> {
                let c = #[trigger] path[i];
                ('a' <= c && c <= 'z') || ('A' <= c && c <= 'Z') || ('0' <= c && c <= '9') || c == '/'
                    || c == '.' || c == '_' || c == '-' || c == '+' || c == '=' || c == ',' || c
                    == ':'
            }) ==> shell_word(path) == path,
        path.len() == 0 || path.contains(' ') || path.contains('\'') || path.contains('$')
            || path.contains('\\') || path.contains('"') ==> shell_word(path).len() >= path.len() + 2
            && shell_word(path)[0] == '\'' && shell_word(path).last() == '\'',
{
    reveal_strlit("'");
    let q = "'"@ + replaced(path, '\'', "'\\''"@) + "'"@;
    if path.len() > 0 && shell_word(path) != q {
        assert forall|c: char| path.contains(c) implies is_shell_safe(c) by {
            let i = choose|i: int| 0 <= i < path.len() && path[i] == c;
            assert(is_shell_safe(path[i]));
        }
    }
    lemma_replaced_longer(path);
}

proof fn lemma_replaced_longer(s: Seq<char>)
    ensures
        replaced(s, '\'', "'\\''"@).len() >= s.len(),
    decreases s.len(),
{
    reveal_strlit("'\\''");
    if s.len() > 0 {
        lemma_replaced_longer(s.drop_last());
    }
}

/// A long report names its button and its cell in digits, both counted from 1, with
/// semicolons between them; it can name every cell.
pub proof fn long_report(mode: TermMode, button: u8, col: usize, row: usize)
    requires
        mode.sgr_mouse,
    ensures
        report(mode, button, col, row) == encode_utf8(
            "\x1b[<"@ + joined(
                seq![
                    decimal_of(button as nat),
                    decimal_of((col + 1) as nat),
                    decimal_of((row + 1) as nat),
                ],
                ";"@,
            ) + "M"@,
        ),
{
    let (a, b, c) = (
        decimal_of(button as nat),
        decimal_of((col + 1) as nat),
        decimal_of((row + 1) as nat),
    );
    let l = seq![a, b, c];
    assert(l.drop_last() =~= seq![a, b]);
    assert(l.drop_last().drop_last() =~= seq![a]);
    assert(joined(seq![a], ";"@) == a);
    assert(joined(seq![a, b], ";"@) == a + ";"@ + b);
    assert(joined(l, ";"@) == a + ";"@ + b + ";"@ + c);
    assert("\x1b[<"@ + joined(l, ";"@) + "M"@ =~= "\x1b[<"@ + a + ";"@ + b + ";"@ + c + "M"@);
}

proof fn lemma_rows_before_last(rows: Seq<(Seq<char>, bool)>, l: int, m: int)
    requires
        rows.len() <= l,
        rows.len() <= m,
    ensures
        rows_text(rows, l) == rows_text(rows, m),
    decreases rows.len(),
{
    if rows.len() > 0 {
        lemma_rows_before_last(rows.drop_last(), l, m);
    }
}

proof fn lemma_trim_behind(a: Seq<char>, b: Seq<char>)
    requires
        trim_right(b).len() > 0,
    ensures
        trim_right(a + b) == a + trim_right(b),
    decreases b.len(),
{
    let s = a + b;
    assert(b.len() > 0);
    assert(s.last() == b.last());
    if is_space(b.last()) {
        assert(s.drop_last() =~= a + b.drop_last());
        lemma_trim_behind(a, b.drop_last());
    }
}

proof fn lemma_wrapped_joined(
    pre: Seq<(Seq<char>, bool)>,
    a: Seq<char>,
    b: Seq<char>,
    wrapped: bool,
    post: Seq<(Seq<char>, bool)>,
    last: int,
)
    requires
        wrapped || trim_right(b).len() > 0,
        last >= pre.len() + post.len(),
    ensures
        rows_text(pre + seq![(a, true), (b, wrapped)] + post, last + 1) == rows_text(
            pre + seq![(a + b, wrapped)] + post,
            last,
        ),
    decreases post.len(),
{
    let two = pre + seq![(a, true), (b, wrapped)] + post;
    let one = pre + seq![(a + b, wrapped)] + post;
    if post.len() > 0 {
        let t = post.drop_last();
        lemma_wrapped_joined(pre, a, b, wrapped, t, last);
        assert(two.drop_last() =~= pre + seq![(a, true), (b, wrapped)] + t);
        assert(one.drop_last() =~= pre + seq![(a + b, wrapped)] + t);
        assert(two.last() == post.last() && one.last() == post.last());
    } else {
        let mid = pre + seq![(a, true)];
        assert(two.drop_last() =~= mid);
        assert(two.last() == (b, wrapped));
        assert(mid.drop_last() =~= pre);
        assert(mid.last() == (a, true));
        assert(one.drop_last() =~= pre);
        assert(one.last() == (a + b, wrapped));
        lemma_rows_before_last(pre, last + 1, last);
        let p = rows_text(pre, last);
        assert(rows_text(mid, last + 1) == p + a);
        if wrapped {
            assert(p + a + b =~= p + (a + b));
        } else {
            lemma_trim_behind(a, b);
            assert(p + a + trim_right(b) + seq!['\n'] =~= p + trim_right(a + b) + seq!['\n']);
            assert(p + a + trim_right(b) =~= p + trim_right(a + b));
        }
    }
}

/// A row that goes on is copied with the row that it goes on in, as one: nothing is cut
/// off between them, and nothing is put there.
pub proof fn wrapped_rows_joined(
    pre: Seq<(Seq<char>, bool)>,
    a: Seq<char>,
    b: Seq<char>,
    wrapped: bool,
    post: Seq<(Seq<char>, bool)>,
)
    requires
        wrapped || trim_right(b).len() > 0,
    ensures
        ({
            let two = pre + seq![(a, true), (b, wrapped)] + post;
            let one = pre + seq![(a + b, wrapped)] + post;
            rows_text(two, two.len() - 1) == rows_text(one, one.len() - 1)
        }),
{
    lemma_wrapped_joined(pre, a, b, wrapped, post, (pre.len() + post.len()) as int);
}

} // verus!
