//! Drawing a terminal.

use typst_live::term_colors::TerminalPalette;
use typst_live::terminal_view::{
    build_layout, convert_color, drops_selection, is_selected, key_action, keystroke_to_bytes,
    right_click, screen_line, shade, Cell, Color, CursorInfo, CursorShape, Fill, ImeState,
    KeyAction, Modifiers, NamedColor, Painted, Span, Theme, BOLD, UNDERLINE, WIDE_CHAR_SPACER,
};

const FG: [u8; 3] = [51, 51, 51];
const BG: [u8; 3] = [245, 245, 245];

fn theme(palette: TerminalPalette) -> Theme {
    Theme { fg: FG, bg: BG, palette }
}

fn keys(control: bool, alt: bool, shift: bool) -> Modifiers {
    Modifiers { control, alt, shift }
}

#[test]
fn named_colors_come_from_palette() {
    let light = TerminalPalette::light();
    for (named, expected) in [
        (NamedColor::Yellow, light.yellow),
        (NamedColor::BrightYellow, light.bright_yellow),
        (NamedColor::Red, light.red),
        (NamedColor::Cyan, light.cyan),
        (NamedColor::Green, light.green),
        (NamedColor::BrightWhite, light.bright_white),
    ] {
        let got = convert_color(Color::Named(named), &theme(TerminalPalette::light()));
        assert_eq!(got, expected, "{named:?} 未按调色板取色");
    }
}

#[test]
fn indexed_first_16_use_palette() {
    let light = TerminalPalette::light();
    let t = theme(TerminalPalette::light());
    assert_eq!(convert_color(Color::Indexed(3), &t), light.yellow);
    assert_eq!(convert_color(Color::Indexed(11), &t), light.bright_yellow);
}

#[test]
fn indexed_cube_stays_standard() {
    let t = theme(TerminalPalette::light());
    assert_eq!(convert_color(Color::Indexed(16), &t), [0, 0, 0]);
    assert_eq!(convert_color(Color::Indexed(231), &t), [255, 255, 255]);
    assert_eq!(convert_color(Color::Indexed(110), &t), [135, 175, 215]);
    assert_eq!(convert_color(Color::Indexed(232), &t), [8, 8, 8]);
    assert_eq!(convert_color(Color::Indexed(255), &t), [238, 238, 238]);
}

#[test]
fn default_fg_bg_follow_theme() {
    let t = Theme { fg: [230, 230, 230], bg: [26, 26, 26], palette: TerminalPalette::dark() };
    assert_eq!(convert_color(Color::Named(NamedColor::Foreground), &t), t.fg);
    assert_eq!(convert_color(Color::Named(NamedColor::Background), &t), t.bg);
}

#[test]
fn letters_with_control_are_control_characters() {
    assert_eq!(keystroke_to_bytes("c", keys(true, false, false)), Some(vec![3]));
    assert_eq!(keystroke_to_bytes("Z", keys(true, false, false)), Some(vec![26]));
    assert_eq!(keystroke_to_bytes("space", keys(true, false, false)), Some(vec![0]));
    assert_eq!(keystroke_to_bytes("up", keys(true, false, false)), None);
}

#[test]
fn keys_with_alt_come_after_an_escape() {
    assert_eq!(keystroke_to_bytes("b", keys(false, true, false)), Some(vec![0x1b, b'b']));
    assert_eq!(keystroke_to_bytes("b", keys(true, true, false)), Some(vec![0x1b, b'b']));
    assert_eq!(keystroke_to_bytes("中", keys(false, true, false)), None);
}

#[test]
fn keys_with_names_send_their_sequences() {
    let none = keys(false, false, false);
    assert_eq!(keystroke_to_bytes("enter", none), Some(b"\r".to_vec()));
    assert_eq!(keystroke_to_bytes("enter", keys(false, false, true)), Some(b"\n".to_vec()));
    assert_eq!(keystroke_to_bytes("tab", keys(false, false, true)), Some(b"\x1b[Z".to_vec()));
    assert_eq!(keystroke_to_bytes("left", none), Some(b"\x1b[D".to_vec()));
    assert_eq!(keystroke_to_bytes("pagedown", none), Some(b"\x1b[6~".to_vec()));
    assert_eq!(keystroke_to_bytes("f4", none), Some(b"\x1bOS".to_vec()));
    assert_eq!(keystroke_to_bytes("f12", none), Some(b"\x1b[24~".to_vec()));
    assert_eq!(keystroke_to_bytes("a", none), None, "字符由输入法送来");
}

#[test]
fn copying_and_pasting_by_keys() {
    let ctrl = keys(true, false, false);
    assert!(matches!(key_action("c", ctrl, true), KeyAction::Copy));
    assert!(matches!(key_action("insert", ctrl, false), KeyAction::Copy));
    assert!(matches!(key_action("c", keys(true, false, true), false), KeyAction::Copy));
    assert!(matches!(key_action("v", ctrl, false), KeyAction::Paste));
    assert!(matches!(key_action("insert", keys(false, false, true), false), KeyAction::Paste));
    match key_action("c", ctrl, false) {
        KeyAction::Send(b) => assert_eq!(b, vec![3], "没有选区时是中断"),
        _ => panic!("该送出去"),
    }
    assert!(matches!(key_action("x", keys(false, false, false), false), KeyAction::Nothing));
    assert!(matches!(right_click(true), KeyAction::Copy));
    assert!(matches!(right_click(false), KeyAction::Paste));
    assert!(drops_selection(0));
    assert!(!drops_selection(1));
}

fn cell(line: i32, column: usize) -> Cell {
    Cell {
        line,
        column,
        c: 'x',
        fg: Color::Named(NamedColor::Foreground),
        bg: Color::Named(NamedColor::Background),
        flags: 0,
    }
}

#[test]
fn a_selection_runs_over_lines_and_a_block_does_not() {
    let run = Span { start_line: 1, start_column: 3, end_line: 2, end_column: 1, is_block: false };
    let at = |s: Span, l: i32, c: usize| is_selected(Some(s), &cell(l, c), CursorShape::Hidden);
    assert!(at(run, 1, 3));
    assert!(at(run, 1, 70));
    assert!(at(run, 2, 0));
    assert!(!at(run, 2, 2));
    assert!(!at(run, 1, 2));
    let block = Span { start_line: 1, start_column: 1, end_line: 2, end_column: 3, is_block: true };
    assert!(at(block, 2, 2));
    assert!(!at(block, 1, 4));
    assert!(!is_selected(None, &cell(1, 3), CursorShape::Hidden));
}

#[test]
fn selected_cells_have_the_colour_of_the_selection() {
    let t = theme(TerminalPalette::light());
    assert_eq!(shade(&cell(0, 0), &t, true).fill, Some(Fill::Selection));
    let plain = shade(&cell(0, 0), &t, false);
    assert_eq!(plain.fill, None);
    assert_eq!(plain.fg, FG);
}

fn painted(line: i32, column: usize, c: char, fill: Option<Fill>, flags: u16) -> Painted {
    Painted { line, column, c, ink: FG, fill, flags }
}

#[test]
fn neighbours_share_a_run_and_a_rectangle() {
    let red = Some(Fill::Color([255, 0, 0]));
    let cells = vec![
        painted(0, 0, 'a', red, 0),
        painted(0, 1, 'b', red, 0),
        painted(0, 2, ' ', None, 0),
        painted(0, 3, 'c', Some(Fill::Selection), BOLD),
        painted(1, 4, 'd', Some(Fill::Selection), BOLD),
    ];
    let out = build_layout(&cells, Some(CursorInfo { line: 1, column: 2 }));
    let runs: Vec<(i32, usize, &str, bool)> =
        out.runs.iter().map(|r| (r.line, r.column, r.text.as_str(), r.bold)).collect();
    assert_eq!(runs, vec![(0, 0, "ab", false), (0, 3, "c", true), (1, 4, "d", true)]);
    let rects: Vec<(i32, usize, usize)> =
        out.rects.iter().map(|r| (r.line, r.column, r.cells)).collect();
    assert_eq!(rects, vec![(0, 0, 2), (0, 3, 1), (1, 4, 1)]);
    assert_eq!(out.cursor.unwrap().column, 2);
}

#[test]
fn blanks_are_drawn_only_where_underlined() {
    let cells = vec![
        painted(0, 0, ' ', None, UNDERLINE),
        painted(0, 1, '中', None, 0),
        painted(0, 2, ' ', None, WIDE_CHAR_SPACER),
    ];
    let out = build_layout(&cells, None);
    let texts: Vec<&str> = out.runs.iter().map(|r| r.text.as_str()).collect();
    assert_eq!(texts, vec![" ", "中"]);
}

#[test]
fn lines_of_the_history_are_moved_onto_the_screen() {
    assert_eq!(screen_line(-3, 5), 2);
}

#[test]
fn composing_sends_nothing_until_it_is_final() {
    let mut ime = ImeState { marked_text: None };
    ime.mark("ni𝄞");
    assert_eq!(ime.marked_len(), Some(4));
    ime.mark("");
    assert_eq!(ime.marked_len(), None);
    ime.mark("ni");
    assert_eq!(ime.commit("你"), Some("你".as_bytes().to_vec()));
    assert_eq!(ime.marked_text, None);
    assert_eq!(ime.commit(""), None);
    ime.mark("x");
    ime.unmark();
    assert_eq!(ime.marked_text, None);
}
