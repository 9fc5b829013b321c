//! When the text is written to disk by itself.

use vstd::prelude::*;

verus! {

/// How many milliseconds typing must have paused.
pub const DELAY_MS: u64 = 1000;

/// Whether the text is to be written: automatic saving is on, the file is one that
/// the user opened, and the text differs from what is on disk.
pub fn should_save(autosave: bool, explicit_file: bool, changed: bool) -> (r: bool)
    ensures
        r == (autosave && explicit_file && changed),
{
    autosave && explicit_file && changed
}

/// What the status bar says about saving.
pub open spec fn status_text(dirty: bool, autosave: bool) -> Seq<char> {
    if dirty && autosave {
        "● 待自动保存"@
    } else if dirty {
        "● 未保存"@
    } else if autosave {
        "已自动保存"@
    } else {
        "已保存"@
    }
}

/// What the status bar says about saving.
pub fn status_label(dirty: bool, autosave: bool) -> (r: &'static str)
    ensures
        r@ == status_text(dirty, autosave),
{
    match (dirty, autosave) {
        (true, true) => "● 待自动保存",
        (true, false) => "● 未保存",
        (false, true) => "已自动保存",
        (false, false) => "已保存",
    }
}

/// No two states of saving are shown alike.
pub proof fn status_labels_are_distinct(d1: bool, a1: bool, d2: bool, a2: bool)
    requires
        status_text(d1, a1) == status_text(d2, a2),
    ensures
        d1 == d2,
        a1 == a2,
{
    reveal_strlit("● 待自动保存");
    reveal_strlit("● 未保存");
    reveal_strlit("已自动保存");
    reveal_strlit("已保存");
    assert("● 待自动保存"@.len() == 7);
    assert("● 未保存"@.len() == 5);
    assert("已自动保存"@.len() == 5);
    assert("已保存"@.len() == 3);
    assert("● 未保存"@[0] == '●');
    assert("已自动保存"@[0] == '已');
}

} // verus!
