//! A document from opening to closing.

use typst_live::disk_watch::Stamp;
use typst_live::document::Document;

fn stamp(len: u64) -> Stamp {
    Stamp { len, mtime: Some(1) }
}

fn open() -> Document {
    Document::new("w/a.typ".to_string(), "旧".to_string(), true, true, Some(stamp(3)))
}

#[test]
fn a_change_counts_only_if_the_text_differs() {
    let mut d = open();
    assert!(!d.change("旧".to_string()));
    assert!(!d.dirty);
    assert!(d.change("新".to_string()));
    assert!(d.dirty);
}

#[test]
fn saving_puts_the_document_at_rest() {
    let mut d = open();
    d.change("新".to_string());
    d.save(None, Some(stamp(4)));
    assert!(!d.dirty);
    assert_eq!(d.saved, "新");
    assert_eq!(d.stamp, Some(stamp(4)));
    assert_eq!(d.message, Some("已保存 w/a.typ".to_string()));
}

#[test]
fn a_write_that_fails_keeps_the_changes() {
    let mut d = open();
    d.change("新".to_string());
    d.save(Some("只读"), None);
    assert!(d.dirty);
    assert_eq!(d.saved, "旧");
    assert_eq!(d.message, Some("保存失败：只读".to_string()));
}

#[test]
fn the_document_saves_itself_when_it_may() {
    let mut d = open();
    assert!(!d.wants_autosave());
    d.change("新".to_string());
    assert!(d.wants_autosave());
    d.autosave(None, Some(stamp(4)));
    assert_eq!(d.message, Some("已自动保存（第 1 次）".to_string()));
    assert!(!d.wants_autosave());
    d.change("更新".to_string());
    d.set_autosave(false);
    assert!(!d.wants_autosave());
    assert_eq!(d.message, Some("自动保存：关（只有 Ctrl+S 会写盘）".to_string()));
}

#[test]
fn the_demonstration_is_never_written() {
    let mut d = Document::new("demo".to_string(), "a".to_string(), false, true, None);
    d.change("b".to_string());
    assert!(!d.wants_autosave());
}

#[test]
fn what_is_read_from_disk_is_shown_where_nothing_is_lost() {
    let mut d = open();
    d.pend("一\n二".to_string(), stamp(9));
    assert_eq!(d.apply_disk_reload(5, 5), Some((1, 1)));
    assert_eq!(d.text, "一\n二");
    assert!(!d.dirty);
    assert_eq!(
        d.message,
        Some("已重新加载「a.typ」（磁盘上有新版本，第 1 次）".to_string())
    );
    assert_eq!(d.apply_disk_reload(0, 0), None);
}

#[test]
fn changes_are_not_replaced_by_what_is_on_disk() {
    let mut d = open();
    d.pend("盘上".to_string(), stamp(9));
    d.change("手上".to_string());
    assert_eq!(d.apply_disk_reload(0, 0), None);
    assert_eq!(d.text, "手上");
}

#[test]
fn a_problem_is_told_once() {
    let mut d = open();
    assert!(d.note_disk_problem("没了", None));
    assert!(!d.note_disk_problem("没了", None));
    assert!(d.note_disk_problem("又来", None));
}

#[test]
fn closing_asks_about_changes() {
    let mut d = open();
    assert!(d.on_close_requested());
    d.change("新".to_string());
    assert!(!d.on_close_requested());
    assert!(d.close_prompt);
    d.close_cancel();
    assert!(!d.close_prompt);
    assert!(!d.on_close_requested());
    assert!(!d.close_save(Some("满了"), None));
    assert!(d.dirty);
    assert!(d.close_save(None, Some(stamp(4))));
    assert!(d.on_close_requested());
}

#[test]
fn changes_can_be_given_up() {
    let mut d = open();
    d.change("新".to_string());
    d.on_close_requested();
    d.close_discard();
    assert!(d.on_close_requested());
}

#[test]
fn another_file_is_not_opened_over_changes() {
    let mut d = open();
    d.change("新".to_string());
    assert!(!d.open_in_editor("b.typ".to_string(), "b".to_string(), "b.typ", None));
    assert_eq!(d.text, "新");
    d.save(None, None);
    assert!(d.open_in_editor("b.typ".to_string(), "b".to_string(), "b.typ", Some(stamp(1))));
    assert_eq!(d.path, "b.typ");
    assert_eq!(d.text, "b");
    assert_eq!(d.message, Some("打开 b.typ".to_string()));
}
