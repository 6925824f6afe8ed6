//! Input for the embedded terminals.
use alacritty_terminal::term::cell::Flags;
use alacritty_terminal::term::TermMode as Bits;
use cutter::term_input::{
    drag_select, dropped_text, mouse_report, paste_bytes, selection_text, shell_quote, spill_name,
    wheel, ButtonEvent, Cell, Clicks, SelectCommand, SelectKind, TermMode, WheelAction, WHEEL_DOWN,
    WHEEL_UP,
};

const PLAIN: TermMode = TermMode { mouse_mode: false, sgr_mouse: false, bracketed_paste: false };

#[test]
fn modes_are_read_from_the_terminal() {
    let of = |m: Bits| TermMode::of_bits(m.bits());
    assert_eq!(of(Bits::empty()), PLAIN);
    assert_eq!(of(Bits::SGR_MOUSE), TermMode { sgr_mouse: true, ..PLAIN });
    assert_eq!(of(Bits::BRACKETED_PASTE), TermMode { bracketed_paste: true, ..PLAIN });
    for m in [Bits::MOUSE_REPORT_CLICK, Bits::MOUSE_MOTION, Bits::MOUSE_DRAG] {
        assert_eq!(of(m), TermMode { mouse_mode: true, ..PLAIN });
    }
    assert_eq!(of(Bits::SHOW_CURSOR | Bits::ALT_SCREEN), PLAIN);
}

#[test]
fn cells_are_read_from_the_terminal() {
    let of = |f: Flags| {
        let c = Cell::of_bits(3, 'x', true, f.bits());
        assert_eq!((c.line, c.c, c.selected), (3, 'x', true));
        (c.spacer, c.wrapped)
    };
    assert_eq!(of(Flags::empty()), (false, false));
    assert_eq!(of(Flags::WIDE_CHAR_SPACER), (true, false));
    assert_eq!(of(Flags::LEADING_WIDE_CHAR_SPACER), (true, false));
    assert_eq!(of(Flags::WRAPLINE | Flags::BOLD), (false, true));
    assert_eq!(of(Flags::WIDE_CHAR | Flags::DASHED_UNDERLINE), (false, false));
}

#[test]
fn quotes_only_what_needs_it() {
    assert_eq!(shell_quote("/tmp/a-b_c.png"), "/tmp/a-b_c.png");
    assert_eq!(shell_quote("/tmp/my file.png"), "'/tmp/my file.png'");
    assert_eq!(shell_quote("/tmp/it's.png"), r"'/tmp/it'\''s.png'");
    assert_eq!(shell_quote(""), "''");
}

#[test]
fn quotes_what_is_not_ascii() {
    assert_eq!(shell_quote("/tmp/é"), "'/tmp/é'");
    assert_eq!(shell_quote("a=b,c:d+e"), "a=b,c:d+e");
    assert_eq!(shell_quote("$HOME"), "'$HOME'");
}

#[test]
fn fences_pasted_text_only_when_asked() {
    let plain = TermMode::of_bits(Bits::empty().bits());
    assert_eq!(paste_bytes("a\nb", plain), b"a\rb".to_vec());
    assert_eq!(paste_bytes("a\r\nb", plain), b"a\rb".to_vec());

    let bracketed =
        TermMode::of_bits(Bits::BRACKETED_PASTE.bits());
    assert_eq!(paste_bytes("a\nb", bracketed), b"\x1b[200~a\nb\x1b[201~".to_vec());
    // An escape in the pasted text can't be allowed to close the fence.
    assert_eq!(
        paste_bytes("a\x1b[201~b", bracketed),
        b"\x1b[200~a[201~b\x1b[201~".to_vec()
    );
}

#[test]
fn line_endings_become_returns() {
    assert_eq!(paste_bytes("\r\r\n\n\né", PLAIN), "\r\r\r\ré".as_bytes().to_vec());
    assert_eq!(paste_bytes("", PLAIN), Vec::<u8>::new());
}

#[test]
fn encodes_mouse_reports() {
    let sgr = TermMode::of_bits(Bits::SGR_MOUSE.bits());
    assert_eq!(mouse_report(sgr, WHEEL_UP, 4, 9), b"\x1b[<64;5;10M".to_vec());
    assert_eq!(
        mouse_report(PLAIN, WHEEL_DOWN, 4, 9),
        vec![0x1b, b'[', b'M', 32 + 65, 32 + 5, 32 + 10]
    );
    // Past the addressable range the old encoding has nothing to say.
    assert!(mouse_report(PLAIN, WHEEL_UP, 300, 1).is_empty());
}

#[test]
fn the_short_report_ends_at_its_range() {
    assert_eq!(mouse_report(PLAIN, WHEEL_UP, 222, 222), vec![0x1b, b'[', b'M', 96, 255, 255]);
    assert!(mouse_report(PLAIN, WHEEL_UP, 0, 223).is_empty());
}

#[test]
fn the_wheel_belongs_to_the_terminal_unless_it_is_tracked() {
    assert!(matches!(wheel(0, PLAIN, false, None), WheelAction::Nothing));
    assert!(matches!(wheel(-2, PLAIN, false, None), WheelAction::Scroll(-2)));
    let reporting = TermMode { mouse_mode: true, sgr_mouse: true, ..PLAIN };
    assert!(matches!(wheel(3, reporting, true, Some((0, 0))), WheelAction::Scroll(3)));
    assert!(matches!(wheel(3, reporting, false, None), WheelAction::Nothing));
    match wheel(-2, reporting, false, Some((1, 2))) {
        WheelAction::Write(b) => assert_eq!(b, b"\x1b[<65;2;3M\x1b[<65;2;3M".to_vec()),
        other => panic!("{other:?}"),
    }
    match wheel(i32::MIN, reporting, false, Some((1, 2))) {
        WheelAction::Write(b) => assert_eq!(b.len(), 10 * b"\x1b[<65;2;3M".len()),
        other => panic!("{other:?}"),
    }
}

fn press(inside: bool, claimed: bool) -> ButtonEvent {
    ButtonEvent { pressed: true, inside, claimed }
}

fn release() -> ButtonEvent {
    ButtonEvent { pressed: false, inside: true, claimed: false }
}

#[test]
fn a_claimed_drag_selects() {
    let reporting = TermMode { mouse_mode: true, ..PLAIN };
    let f = drag_select(false, reporting, &vec![press(true, true)], Clicks::One, true);
    assert_eq!(
        f.commands,
        vec![SelectCommand::Start(SelectKind::Simple, 0), SelectCommand::ExtendToPointer]
    );
    assert!(f.selecting && f.consumed);

    let f = drag_select(true, reporting, &vec![release()], Clicks::Two, true);
    assert_eq!(
        f.commands,
        vec![SelectCommand::Extend(0), SelectCommand::Start(SelectKind::Word, 0)]
    );
    assert!(!f.selecting && f.consumed);

    let f = drag_select(false, reporting, &vec![press(true, true), release()], Clicks::Three, false);
    assert_eq!(
        f.commands,
        vec![
            SelectCommand::Start(SelectKind::Simple, 0),
            SelectCommand::Extend(1),
            SelectCommand::Start(SelectKind::Lines, 1)
        ]
    );
}

#[test]
fn an_unclaimed_drag_is_the_programs() {
    let reporting = TermMode { mouse_mode: true, ..PLAIN };
    let f = drag_select(
        false,
        reporting,
        &vec![press(true, false), press(false, true), release()],
        Clicks::One,
        true,
    );
    assert!(f.commands.is_empty() && !f.selecting && !f.consumed);
    let f = drag_select(true, PLAIN, &vec![press(true, true)], Clicks::One, true);
    assert!(f.commands.is_empty() && !f.selecting && !f.consumed);
}

fn cells(line: i32, text: &str, wrapped: bool) -> Vec<Cell> {
    text.chars()
        .map(|c| Cell { line, c, selected: true, spacer: false, wrapped })
        .collect()
}

#[test]
fn copies_rows_as_lines() {
    let mut all = cells(0, "one   ", false);
    all.extend(cells(1, "two ", true));
    all.extend(cells(2, "more", false));
    all.push(Cell { line: 3, c: 'x', selected: false, spacer: false, wrapped: false });
    all.extend(cells(4, "end  ", false));
    assert_eq!(selection_text(&all), "one\ntwo more\nend");
    assert_eq!(selection_text(&vec![]), "");
}

#[test]
fn padding_of_wide_characters_is_not_copied() {
    let mut all = cells(0, "宽", false);
    all.push(Cell { line: 0, c: ' ', selected: true, spacer: true, wrapped: false });
    all.extend(cells(0, "!", false));
    assert_eq!(selection_text(&all), "宽!");
}

#[test]
fn dropped_files_are_pasted_as_words() {
    assert_eq!(dropped_text(&vec!["/a".into(), "/b c".into()]), "/a '/b c' ");
}

#[test]
fn dropped_bytes_stay_in_their_directory() {
    assert_eq!(spill_name("../../x/image.png", 17), "17-image.png");
    assert_eq!(spill_name("..", 17), "17-dropped");
    assert_eq!(spill_name("", 17), "17-dropped");
}
