//! Blocks of changes, and taking some of them over.

use typst_live::diff::{apply_hunks, hunks, rebuild, DiffKind, LineChange, LineTag};

const OLD: &str = "1\n2\n3\n4\n5\n";
const NEW: &str = "1\nX\n3\n4\nY\n";

#[test]
fn hunks_split_scattered_changes() {
    let found = hunks(OLD, NEW);

    assert_eq!(found.len(), 2, "两处改动该切成两块：{found:?}");
    assert_eq!((found[0].added(), found[0].removed()), (1, 1));
    assert_eq!((found[1].added(), found[1].removed()), (1, 1));
}

#[test]
fn no_change_means_no_hunks() {
    assert!(hunks("a\n", "a\n").is_empty());
}

#[test]
fn apply_hunks_accept_and_reject_each_block() {
    assert_eq!(apply_hunks(OLD, NEW, &[true, true]), NEW, "全接受 = 新文本");
    assert_eq!(
        apply_hunks(OLD, NEW, &[false, false]),
        OLD,
        "全拒绝 = 旧文本"
    );
    assert_eq!(apply_hunks(OLD, NEW, &[true, false]), "1\nX\n3\n4\n5\n");
    assert_eq!(apply_hunks(OLD, NEW, &[false, true]), "1\n2\n3\n4\nY\n");
}

#[test]
fn missing_marks_default_to_accepted() {
    assert_eq!(apply_hunks(OLD, NEW, &[]), NEW);
    assert_eq!(apply_hunks(OLD, NEW, &[false]), "1\n2\n3\n4\nY\n");
}

#[test]
fn a_pure_insertion_is_one_hunk() {
    let found = hunks("a\n", "a\nb\n");

    assert_eq!(found.len(), 1);
    assert_eq!(found[0].added(), 1);
    assert_eq!(found[0].removed(), 0);
}

#[test]
fn rejecting_everything_reproduces_the_original_byte_for_byte() {
    let crlf = "1\r\n2\r\n3\r\n";
    let changed = "1\r\nX\r\n3\r\n";
    assert_eq!(
        apply_hunks(crlf, changed, &[false]),
        crlf,
        "CRLF 要原样还回来"
    );

    let no_trailing = "1\n2\n3";
    assert_eq!(
        apply_hunks(no_trailing, "1\nX\n3", &[false]),
        no_trailing,
        "原文结尾没有换行，就别自己补一个"
    );

    let crlf_no_trailing = "1\r\n2\r\n3";
    assert_eq!(
        apply_hunks(crlf_no_trailing, "1\r\nX\r\n3", &[false]),
        crlf_no_trailing
    );
}

#[test]
fn accepting_keeps_the_original_line_ending() {
    let out = apply_hunks("1\r\n2\r\n", "1\r\nX\r\n", &[true]);

    assert_eq!(out, "1\r\nX\r\n");
}

#[test]
fn cjk_and_blank_lines_are_handled() {
    let old = "第一段\n\n第二段\n";
    let new = "第一段改过\n\n第二段\n\n第三段\n";

    let found = hunks(old, new);
    assert!(!found.is_empty(), "该有改动");
    assert_eq!(apply_hunks(old, new, &[true; 4]), new);
}

#[test]
fn the_lines_of_a_block_are_told() {
    let found = hunks(OLD, NEW);
    let shown: Vec<(DiffKind, &str)> =
        found[0].lines.iter().map(|l| (l.kind, l.text.as_str())).collect();
    assert_eq!(shown, vec![(DiffKind::Del, "2"), (DiffKind::Add, "X")]);
}

#[test]
fn changes_that_are_given_are_taken_block_by_block() {
    let line = |tag: LineTag, text: &str| LineChange { tag, text: text.to_string() };
    let changes = vec![
        line(LineTag::Equal, "a\n"),
        line(LineTag::Delete, "b\n"),
        line(LineTag::Insert, "B\n"),
        line(LineTag::Equal, "c\n"),
        line(LineTag::Insert, "d\n"),
    ];
    assert_eq!(rebuild("a\nb\nc\n", &changes, &[true, false]), "a\nB\nc\n");
    assert_eq!(rebuild("a\nb\nc\n", &changes, &[false, true]), "a\nb\nc\nd\n");
}

#[test]
fn blank_lines_at_the_end_are_kept() {
    assert_eq!(apply_hunks("a\n\n", "b\n\n", &[true]), "b\n\n");
    assert_eq!(apply_hunks("a\nb\n", "a\nb\n\n\n", &[true]), "a\nb\n\n\n");
    assert_eq!(apply_hunks("\na\n", "\n", &[]), "\n");
    let line = |tag: LineTag, text: &str| LineChange { tag, text: text.to_string() };
    let changes = vec![
        line(LineTag::Delete, "a\n"),
        line(LineTag::Insert, "b\n"),
        line(LineTag::Equal, "c\n"),
        line(LineTag::Delete, "\n"),
    ];
    assert_eq!(rebuild("a\nc\n\n", &changes, &[true, false]), "b\nc\n\n");
    assert_eq!(rebuild("a\nc\n\n", &changes, &[true, true]), "b\nc\n");
}

#[test]
fn a_text_without_a_line_ending_gets_none() {
    let line = |tag: LineTag, text: &str| LineChange { tag, text: text.to_string() };
    let changes = vec![
        line(LineTag::Equal, "a\n"),
        line(LineTag::Equal, "\n"),
        line(LineTag::Delete, "b"),
    ];
    assert_eq!(rebuild("a\n\nb", &changes, &[true]), "a");
}

#[test]
fn accepting_the_removal_of_everything_leaves_nothing() {
    assert_eq!(apply_hunks("甲\n乙\n", "", &[]), "");
}
