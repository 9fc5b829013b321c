//! Following a file on disk.

use typst_live::disk_watch::{
    changed, clamp_position, verdict, Effect, Phase, Stamp, Verdict, POLL_MS, SETTLE_MS,
    SETTLE_ROUNDS,
};
use typst_live::safe_update::UpdateOutcome;

fn stamp(len: u64, secs: u64) -> Stamp {
    Stamp {
        len,
        mtime: Some(secs as i128 * 1_000_000_000),
    }
}

#[test]
fn same_stamp_is_not_a_change() {
    assert!(!changed(Some(stamp(10, 5)), Some(stamp(10, 5))));
}

#[test]
fn longer_or_newer_counts_as_a_change() {
    assert!(changed(Some(stamp(10, 5)), Some(stamp(11, 5))));
    assert!(changed(Some(stamp(10, 5)), Some(stamp(10, 6))));
}

#[test]
fn appearing_and_disappearing_both_count() {
    assert!(changed(None, Some(stamp(1, 1))));
    assert!(changed(Some(stamp(1, 1)), None));
    assert!(!changed(None, None));
}

#[test]
fn sample_document_is_never_reloaded() {
    assert_eq!(verdict(false, false), Verdict::NotOurs);
    assert_eq!(verdict(false, true), Verdict::NotOurs);
}

#[test]
fn unsaved_edits_win_over_the_disk_version() {
    assert_eq!(verdict(true, true), Verdict::KeepLocal);
}

#[test]
fn clean_editor_takes_the_disk_version() {
    assert_eq!(verdict(true, false), Verdict::Reload);
}

#[test]
fn position_is_clamped_into_the_new_text() {
    assert_eq!(clamp_position(2, 3, "a\nbb\nccc"), (2, 3));
    assert_eq!(clamp_position(9, 0, "a\nbb\nccc"), (2, 0));
    assert_eq!(clamp_position(1, 9, "a\nbb\nccc"), (1, 2));
    assert_eq!(clamp_position(3, 3, "abc"), (0, 3));
}

#[test]
fn position_column_counts_characters_not_bytes() {
    assert_eq!(clamp_position(0, 2, "排版中文"), (0, 2));
    assert_eq!(clamp_position(0, 9, "排版中文"), (0, 4));
}

#[test]
fn empty_text_clamps_everything_to_zero() {
    assert_eq!(clamp_position(5, 5, ""), (0, 0));
}

#[test]
fn crlf_line_endings_line_up() {
    assert_eq!(clamp_position(1, 9, "a\r\nbb\r\nccc"), (1, 3));
}

#[test]
fn a_change_is_read_only_when_it_has_settled() {
    let s = stamp(10, 5);
    let path = || "a.typ".to_string();
    let polled = Phase::polled(UpdateOutcome::Done(Some((path(), Some(stamp(1, 1))))));
    assert!(matches!(polled, Phase::Probe { .. }));
    assert_eq!(Phase::Poll.delay(), POLL_MS);

    let (next, effect) = Phase::probed(path(), Some(stamp(1, 1)), Some(s));
    assert!(matches!(effect, Effect::Nothing));
    assert_eq!(next.delay(), SETTLE_MS);
    match next {
        Phase::Settle { left, stamp, .. } => {
            assert_eq!(left, SETTLE_ROUNDS);
            assert_eq!(stamp, s);
        }
        _ => panic!("该先等它停下来"),
    }

    assert!(matches!(Phase::settled(path(), s, 8, Some(stamp(11, 5))), Phase::Settle { .. }));
    assert!(matches!(Phase::settled(path(), s, 8, Some(s)), Phase::Judge { .. }));
    let (read, effect) = Phase::judged(path(), s, UpdateOutcome::Done(Verdict::Reload));
    assert!(matches!(read, Phase::Read { .. }));
    assert!(matches!(effect, Effect::Nothing));
    match Phase::read("a.typ", s, Ok("新".to_string())) {
        Effect::Pend { text, stamp } => {
            assert_eq!(text, "新");
            assert_eq!(stamp, s);
        }
        _ => panic!("该等着装进去"),
    }
}

#[test]
fn a_file_that_went_away_or_cannot_be_read_is_told() {
    let s = stamp(10, 5);
    let (next, effect) = Phase::probed("a.typ".to_string(), Some(s), None);
    assert!(matches!(next, Phase::Poll));
    assert!(matches!(effect, Effect::Note { .. }));
    assert!(matches!(Phase::read("a.typ", s, Err("坏".to_string())), Effect::Note { .. }));
}

#[test]
fn changes_are_kept_and_told_when_the_editor_has_some_of_its_own() {
    let s = stamp(10, 5);
    let (next, effect) =
        Phase::judged("a.typ".to_string(), s, UpdateOutcome::Done(Verdict::KeepLocal));
    assert!(matches!(next, Phase::Poll));
    assert!(matches!(effect, Effect::Note { .. }));
}

#[test]
fn a_window_that_is_gone_ends_the_watch() {
    assert!(matches!(Phase::polled(UpdateOutcome::Gone), Phase::Stopped));
    assert!(matches!(Phase::polled(UpdateOutcome::Busy), Phase::Poll));
}
