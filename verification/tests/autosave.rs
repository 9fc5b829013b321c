//! When a document is saved by itself.

use typst_live::autosave::{should_save, status_label};

#[test]
fn all_three_guards_open_means_write() {
    assert!(should_save(true, true, true));
}

#[test]
fn switched_off_never_writes() {
    assert!(!should_save(false, true, true));
}

#[test]
fn the_built_in_demo_is_never_written() {
    assert!(!should_save(true, false, true));
}

#[test]
fn unchanged_text_is_not_written_again() {
    assert!(!should_save(true, true, false));
}

#[test]
fn the_four_status_labels_are_distinct() {
    let all = [
        status_label(true, true),
        status_label(true, false),
        status_label(false, true),
        status_label(false, false),
    ];
    assert_eq!(status_label(true, true), "● 待自动保存");
    assert_eq!(status_label(true, false), "● 未保存");
    assert_eq!(status_label(false, true), "已自动保存");
    assert_eq!(status_label(false, false), "已保存");

    for (i, a) in all.iter().enumerate() {
        for b in all.iter().skip(i + 1) {
            assert_ne!(a, b, "两种状态不该写同一句话：{a}");
        }
    }
}
