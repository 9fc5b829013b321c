//! The terminal: what is pasted, and what its events come to.

use typst_live::terminal::{
    event_of, grid_line, needs_resize, paste_bytes, selection_text, Pump, Signal, TermEvent,
    TerminalSize,
};

#[test]
fn paste_normalizes_newlines_to_cr() {
    assert_eq!(paste_bytes("a\nb", false), b"a\rb".to_vec());
    assert_eq!(paste_bytes("a\r\nb", false), b"a\rb".to_vec());
    assert_eq!(
        paste_bytes("echo hi\necho bye", false),
        b"echo hi\recho bye".to_vec()
    );
}

#[test]
fn paste_wraps_when_bracketed() {
    assert_eq!(
        paste_bytes("a\nb", true),
        b"\x1b[200~a\rb\x1b[201~".to_vec()
    );
}

#[test]
fn paste_keeps_plain_text_intact() {
    assert_eq!(paste_bytes("git status", false), b"git status".to_vec());
}

#[test]
fn a_quiet_terminal_is_looked_at_less_often() {
    let mut pump = Pump { idle: 0 };
    for _ in 0..41 {
        assert_eq!(pump.interval(), 50);
        let got = pump.feed(&vec![]);
        assert!(!got.redraw && !got.over && got.message.is_none());
    }
    assert_eq!(pump.interval(), 120);
    assert!(pump.feed(&vec![TermEvent::Bell, TermEvent::Wakeup]).redraw);
    assert_eq!(pump.interval(), 50);
}

#[test]
fn the_end_of_the_shell_is_told() {
    let mut pump = Pump { idle: 3 };
    let got = pump.feed(&vec![TermEvent::ChildExit(Some(-1)), TermEvent::ChildExit(None)]);
    assert!(got.over);
    assert_eq!(got.message, Some("终端已退出（退出码 Some(-1)）".to_string()));
}

#[test]
fn only_some_signals_count() {
    assert_eq!(event_of(Signal::Wakeup), Some(TermEvent::Wakeup));
    assert_eq!(event_of(Signal::Exit), Some(TermEvent::ChildExit(None)));
    assert_eq!(event_of(Signal::Other), None);
}

#[test]
fn rows_and_sizes() {
    assert_eq!(grid_line(2, 5), -3);
    let a = TerminalSize { columns: 80, lines: 24 };
    assert!(!needs_resize(a, a));
    assert!(needs_resize(a, TerminalSize { columns: 81, lines: 24 }));
}

#[test]
fn an_empty_selection_is_none() {
    assert_eq!(selection_text(None), None);
    assert_eq!(selection_text(Some(String::new())), None);
    assert_eq!(selection_text(Some("x".to_string())), Some("x".to_string()));
}
