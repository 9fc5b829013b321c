//! The document that is open: when it is written, read again and given up.

use vstd::prelude::*;
use vstd::string::*;

use crate::autosave;
use crate::decimal;
use crate::decimal::decimal;
use crate::disk_watch;
use crate::disk_watch::{clamped, overruled, Stamp};
use crate::labels;
use crate::labels::label_of;
use crate::text;
use crate::text::{optional, said};

verus! {

/// The document that is open.
pub struct Document {
    /// Where it is stored.
    pub path: String,
    /// Whether the user opened it; the sample that comes with the program is not the
    /// user's.
    pub explicit_file: bool,
    /// What the editor holds.
    pub text: String,
    /// What is known to be on disk.
    pub saved: String,
    /// Whether it was changed since it was read or written.
    pub dirty: bool,
    pub autosave: bool,
    /// How often it was written by itself.
    pub autosave_writes: usize,
    /// The file as it was last seen.
    pub stamp: Option<Stamp>,
    /// What was read from disk and waits to be shown.
    pub pending: Option<(String, Stamp)>,
    /// What was last said about a change on disk that was not taken over.
    pub problem: Option<String>,
    /// How often it was read again.
    pub reloads: usize,
    /// Whether the user is being asked what to do with the changes.
    pub close_prompt: bool,
    /// Whether the user has answered.
    pub close_confirmed: bool,
    /// What the status bar says.
    pub message: Option<String>,
}

/// The document, its texts as sequences.
pub struct Sheet {
    pub path: Seq<char>,
    pub explicit_file: bool,
    pub text: Seq<char>,
    pub saved: Seq<char>,
    pub dirty: bool,
    pub autosave: bool,
    pub autosave_writes: nat,
    pub stamp: Option<Stamp>,
    pub pending: Option<(Seq<char>, Stamp)>,
    pub problem: Option<Seq<char>>,
    pub reloads: nat,
    pub close_prompt: bool,
    pub close_confirmed: bool,
    pub message: Option<Seq<char>>,
}

/// What waits to be shown.
pub open spec fn waiting(pending: Option<(String, Stamp)>) -> Option<(Seq<char>, Stamp)> {
    match pending {
        Some((text, stamp)) => Some((text@, stamp)),
        None => None,
    }
}

impl View for Document {
    type V = Sheet;

    open spec fn view(&self) -> Sheet {
        Sheet {
            path: self.path@,
            explicit_file: self.explicit_file,
            text: self.text@,
            saved: self.saved@,
            dirty: self.dirty,
            autosave: self.autosave,
            autosave_writes: self.autosave_writes as nat,
            stamp: self.stamp,
            pending: waiting(self.pending),
            problem: optional(self.problem),
            reloads: self.reloads as nat,
            close_prompt: self.close_prompt,
            close_confirmed: self.close_confirmed,
            message: optional(self.message),
        }
    }
}

impl Sheet {
    /// Unless the user has given the changes up, a document that counts as unchanged is
    /// on disk as it is.
    pub open spec fn sound(self) -> bool {
        !self.dirty && !self.close_confirmed ==> self.text == self.saved
    }
}

/// A document that was just read.
pub open spec fn fresh(
    path: Seq<char>,
    text: Seq<char>,
    explicit_file: bool,
    autosave: bool,
    stamp: Option<Stamp>,
) -> Sheet {
    Sheet {
        path,
        explicit_file,
        text,
        saved: text,
        dirty: false,
        autosave,
        autosave_writes: 0,
        stamp,
        pending: None,
        problem: None,
        reloads: 0,
        close_prompt: false,
        close_confirmed: false,
        message: None,
    }
}

/// The document after the editor reported what it holds.
pub open spec fn changed(s: Sheet, text: Seq<char>) -> Sheet {
    if text == s.text {
        s
    } else {
        replaced(s, text)
    }
}

/// The document after its text was put in place of the old one.
pub open spec fn replaced(s: Sheet, text: Seq<char>) -> Sheet {
    Sheet { text, dirty: true, ..s }
}

/// The document after an attempt to write it; `error` says why that failed.
pub open spec fn written(s: Sheet, error: Option<Seq<char>>, stamp: Option<Stamp>) -> Sheet {
    match error {
        Some(why) => Sheet { message: Some("保存失败："@ + why), ..s },
        None => Sheet {
            saved: s.text,
            dirty: false,
            stamp,
            problem: None,
            close_prompt: false,
            ..s
        },
    }
}

/// The document after the user wanted it written.
pub open spec fn saved(s: Sheet, error: Option<Seq<char>>, stamp: Option<Stamp>) -> Sheet {
    let w = written(s, error, stamp);
    if error is None {
        Sheet { message: Some("已保存 "@ + s.path), ..w }
    } else {
        w
    }
}

/// The document is to be written by itself.
pub open spec fn autosave_due(s: Sheet) -> bool {
    s.dirty && s.autosave && s.explicit_file && s.text != s.saved
}

/// The document after it was to be written by itself.
pub open spec fn autosaved(s: Sheet, error: Option<Seq<char>>, stamp: Option<Stamp>) -> Sheet {
    let w = written(s, error, stamp);
    if error is None {
        Sheet {
            autosave_writes: s.autosave_writes + 1,
            message: Some("已自动保存（第 "@ + decimal(s.autosave_writes + 1) + " 次）"@),
            ..w
        }
    } else {
        w
    }
}

/// The document after writing by itself was switched.
pub open spec fn with_autosave(s: Sheet, on: bool) -> Sheet {
    Sheet {
        autosave: on,
        message: Some(
            if on {
                "自动保存：开（停下 1 秒后写盘；内置示例文档永远不写）"@
            } else {
                "自动保存：关（只有 Ctrl+S 会写盘）"@
            },
        ),
        ..s
    }
}

/// The document after a change on disk that was not taken over. What was said already
/// is not said again.
pub open spec fn with_problem(s: Sheet, problem: Seq<char>, stamp: Option<Stamp>) -> Sheet {
    if s.problem == Some(problem) {
        Sheet { stamp, ..s }
    } else {
        Sheet { stamp, problem: Some(problem), message: Some(problem), ..s }
    }
}

/// The document after what waits was to be shown: unless it was changed meanwhile, it
/// is replaced.
pub open spec fn reloaded(s: Sheet) -> Sheet {
    match s.pending {
        None => s,
        Some((text, stamp)) => {
            let t = Sheet { pending: None, ..s };
            if s.dirty {
                with_problem(t, overruled(s.path), Some(stamp))
            } else {
                Sheet {
                    text,
                    saved: text,
                    dirty: false,
                    stamp: Some(stamp),
                    problem: None,
                    reloads: s.reloads + 1,
                    message: Some(
                        "已重新加载「"@ + label_of(s.path) + "」（磁盘上有新版本，第 "@ + decimal(
                            s.reloads + 1,
                        ) + " 次）"@,
                    ),
                    ..t
                }
            }
        },
    }
}

/// The window may be closed.
pub open spec fn may_close(s: Sheet) -> bool {
    s.close_confirmed || !s.dirty
}

/// The document after the window was to be closed: with changes, the user is asked.
pub open spec fn close_asked(s: Sheet) -> Sheet {
    if may_close(s) {
        s
    } else {
        Sheet { close_prompt: true, ..s }
    }
}

/// The document after the user wanted it written before the window is closed.
pub open spec fn close_saved(s: Sheet, error: Option<Seq<char>>, stamp: Option<Stamp>) -> Sheet {
    let w = Sheet { close_prompt: false, ..saved(s, error, stamp) };
    if w.dirty {
        w
    } else {
        Sheet { close_confirmed: true, ..w }
    }
}

/// The document after the user gave the changes up.
pub open spec fn close_discarded(s: Sheet) -> Sheet {
    Sheet { dirty: false, close_prompt: false, close_confirmed: true, ..s }
}

/// The document after another file was to be opened: with changes, it stays.
pub open spec fn opened(
    s: Sheet,
    path: Seq<char>,
    text: Seq<char>,
    label: Seq<char>,
    stamp: Option<Stamp>,
) -> Sheet {
    if s.dirty {
        Sheet {
            message: Some(
                "「"@ + label_of(s.path)
                    + "」还有未保存的修改：先 Ctrl+S 保存（或 Ctrl+Z 撤到干净）再打开别的文件"@,
            ),
            ..s
        }
    } else {
        Sheet {
            path,
            explicit_file: true,
            text,
            saved: text,
            dirty: false,
            stamp,
            pending: None,
            problem: None,
            message: Some("打开 "@ + label),
            ..s
        }
    }
}

impl Document {
    /// A document that was just read.
    pub fn new(
        path: String,
        text: String,
        explicit_file: bool,
        autosave: bool,
        stamp: Option<Stamp>,
    ) -> (r: Self)
        ensures
            r@ == fresh(path@, text@, explicit_file, autosave, stamp),
    {
        Document {
            path,
            explicit_file,
            saved: text.clone(),
            text,
            dirty: false,
            autosave,
            autosave_writes: 0,
            stamp,
            pending: None,
            problem: None,
            reloads: 0,
            close_prompt: false,
            close_confirmed: false,
            message: None,
        }
    }

    /// Takes over what the editor holds. Says whether that is new, so that it is to be
    /// set again.
    pub fn change(&mut self, text: String) -> (r: bool)
        ensures
            final(self)@ == changed(old(self)@, text@),
            r == (text@ != old(self)@.text),
    {
        if text::same(text.as_str(), self.text.as_str()) {
            return false;
        }
        self.replace(text);
        true
    }

    /// Puts a text in place of the old one.
    pub fn replace(&mut self, text: String)
        ensures
            final(self)@ == replaced(old(self)@, text@),
    {
        self.text = text;
        self.dirty = true;
    }

    /// Takes note of an attempt to write. Says whether it succeeded.
    pub fn write(&mut self, error: Option<&str>, stamp: Option<Stamp>) -> (r: bool)
        ensures
            final(self)@ == written(old(self)@, said(error), stamp),
            r == error is None,
    {
        match error {
            Some(why) => {
                self.message = Some(text::both("保存失败：", why));
                false
            },
            None => {
                self.saved = self.text.clone();
                self.dirty = false;
                self.stamp = stamp;
                self.problem = None;
                self.close_prompt = false;
                true
            },
        }
    }

    /// Takes note of an attempt of the user to write.
    pub fn save(&mut self, error: Option<&str>, stamp: Option<Stamp>)
        ensures
            final(self)@ == saved(old(self)@, said(error), stamp),
    {
        if self.write(error, stamp) {
            self.message = Some(text::both("已保存 ", self.path.as_str()));
        }
    }

    /// Whether the document is to be written by itself.
    pub fn wants_autosave(&self) -> (r: bool)
        ensures
            r == autosave_due(self@),
    {
        self.dirty && autosave::should_save(
            self.autosave,
            self.explicit_file,
            !text::same(self.text.as_str(), self.saved.as_str()),
        )
    }

    /// Takes note of an attempt to write the document by itself.
    pub fn autosave(&mut self, error: Option<&str>, stamp: Option<Stamp>)
        requires
            old(self).autosave_writes < usize::MAX,
        ensures
            final(self)@ == autosaved(old(self)@, said(error), stamp),
    {
        if self.write(error, stamp) {
            self.autosave_writes = self.autosave_writes + 1;
            let count = decimal::show_size(self.autosave_writes);
            self.message = Some(text::three("已自动保存（第 ", count.as_str(), " 次）"));
        }
    }

    /// Switches writing by itself. Says whether it is now on, so that a pause in typing
    /// is to be waited for.
    pub fn set_autosave(&mut self, on: bool) -> (r: bool)
        ensures
            final(self)@ == with_autosave(old(self)@, on),
            r == on,
    {
        self.autosave = on;
        self.message = Some(
            if on {
                "自动保存：开（停下 1 秒后写盘；内置示例文档永远不写）".to_owned()
            } else {
                "自动保存：关（只有 Ctrl+S 会写盘）".to_owned()
            },
        );
        on
    }

    /// The file whose changes on disk matter, and how it was last seen.
    pub fn watched(&self) -> (r: Option<(String, Option<Stamp>)>)
        ensures
            r is Some == self@.explicit_file,
            r matches Some((path, stamp)) ==> path@ == self@.path && stamp == self@.stamp,
    {
        if self.explicit_file {
            Some((self.path.clone(), self.stamp))
        } else {
            None
        }
    }

    /// Takes note of a change on disk that is not taken over. Says whether that is new.
    pub fn note_disk_problem(&mut self, problem: &str, stamp: Option<Stamp>) -> (r: bool)
        ensures
            final(self)@ == with_problem(old(self)@, problem@, stamp),
            r == (old(self)@.problem != Some(problem@)),
    {
        self.stamp = stamp;
        if let Some(known) = &self.problem {
            if text::same(known.as_str(), problem) {
                return false;
            }
        }
        self.problem = Some(problem.to_owned());
        self.message = Some(problem.to_owned());
        true
    }

    /// Takes over what was read from disk, to be shown later.
    pub fn pend(&mut self, text: String, stamp: Stamp)
        ensures
            final(self)@ == (Sheet {
                stamp: Some(stamp),
                pending: Some((text@, stamp)),
                ..old(self)@
            }),
    {
        self.stamp = Some(stamp);
        self.pending = Some((text, stamp));
    }

    /// Shows what waits, unless the document was changed meanwhile. Says where the
    /// cursor goes that was at a line and a column, where the text was replaced.
    pub fn apply_disk_reload(&mut self, line: u32, character: u32) -> (r: Option<(u32, u32)>)
        requires
            old(self)@.pending matches Some((text, _)) ==> text.len() <= u32::MAX,
            old(self).reloads < usize::MAX,
        ensures
            final(self)@ == reloaded(old(self)@),
            r is Some == (old(self)@.pending is Some && !old(self)@.dirty),
            r matches Some((l, c)) ==> (l as int, c as int) == clamped(
                line as int,
                character as int,
                final(self)@.text,
            ),
    {
        let taken = self.pending.take();
        let (text, stamp) = match taken {
            Some(p) => p,
            None => {
                return None;
            },
        };
        let label = labels::short_label(self.path.as_str());
        if self.dirty {
            let problem = text::three(
                "「",
                label.as_str(),
                "」在磁盘上被改过 —— 你有未保存的修改，没有重载（保存后以你为准）",
            );
            self.note_disk_problem(problem.as_str(), Some(stamp));
            return None;
        }
        let place = disk_watch::clamp_position(line, character, text.as_str());
        self.saved = text.clone();
        self.text = text;
        self.stamp = Some(stamp);
        self.problem = None;
        self.reloads = self.reloads + 1;
        let count = decimal::show_size(self.reloads);
        let mut message = text::three(
            "已重新加载「",
            label.as_str(),
            "」（磁盘上有新版本，第 ",
        );
        message.append(count.as_str());
        message.append(" 次）");
        self.message = Some(message);
        Some(place)
    }

    /// The window is to be closed. Says whether it may be.
    pub fn on_close_requested(&mut self) -> (r: bool)
        ensures
            final(self)@ == close_asked(old(self)@),
            r == may_close(old(self)@),
    {
        if self.close_confirmed || !self.dirty {
            return true;
        }
        self.close_prompt = true;
        false
    }

    /// The document was to be written before the window is closed. Says whether the
    /// window is to be closed now.
    pub fn close_save(&mut self, error: Option<&str>, stamp: Option<Stamp>) -> (r: bool)
        ensures
            final(self)@ == close_saved(old(self)@, said(error), stamp),
            r == !final(self)@.dirty,
    {
        self.save(error, stamp);
        self.close_prompt = false;
        if self.dirty {
            return false;
        }
        self.close_confirmed = true;
        true
    }

    /// The user gives the changes up; the window is to be closed.
    pub fn close_discard(&mut self)
        ensures
            final(self)@ == close_discarded(old(self)@),
    {
        self.dirty = false;
        self.close_prompt = false;
        self.close_confirmed = true;
    }

    /// The user goes on editing.
    pub fn close_cancel(&mut self)
        ensures
            final(self)@ == (Sheet { close_prompt: false, ..old(self)@ }),
    {
        self.close_prompt = false;
    }

    /// Opens another file, unless there are changes. Says whether it was opened.
    pub fn open_in_editor(&mut self, path: String, text: String, label: &str, stamp: Option<Stamp>)
        -> (r: bool)
        ensures
            final(self)@ == opened(old(self)@, path@, text@, label@, stamp),
            r == !old(self)@.dirty,
    {
        if self.dirty {
            let mine = labels::short_label(self.path.as_str());
            self.message = Some(
                text::three(
                    "「",
                    mine.as_str(),
                    "」还有未保存的修改：先 Ctrl+S 保存（或 Ctrl+Z 撤到干净）再打开别的文件",
                ),
            );
            return false;
        }
        self.path = path;
        self.explicit_file = true;
        self.saved = text.clone();
        self.text = text;
        self.stamp = stamp;
        self.pending = None;
        self.problem = None;
        self.message = Some(text::both("打开 ", label));
        true
    }
}

/// A document that was just read is sound, and whatever happens to it keeps it so.
pub proof fn documents_stay_sound(
    s: Sheet,
    path: Seq<char>,
    text: Seq<char>,
    label: Seq<char>,
    error: Option<Seq<char>>,
    stamp: Option<Stamp>,
    on: bool,
)
    requires
        s.sound(),
    ensures
        fresh(path, text, on, on, stamp).sound(),
        changed(s, text).sound(),
        replaced(s, text).sound(),
        written(s, error, stamp).sound(),
        saved(s, error, stamp).sound(),
        autosaved(s, error, stamp).sound(),
        with_autosave(s, on).sound(),
        with_problem(s, label, stamp).sound(),
        reloaded(s).sound(),
        close_asked(s).sound(),
        close_saved(s, error, stamp).sound(),
        close_discarded(s).sound(),
        opened(s, path, text, label, stamp).sound(),
{
}

/// The window closes only where the text is on disk, or where the user has given the
/// changes up or had them written.
pub proof fn closing_loses_nothing_unasked(s: Sheet)
    requires
        s.sound(),
        may_close(s),
    ensures
        s.text == s.saved || s.close_confirmed,
{
}

/// Changes of the user survive whatever comes from disk and every attempt to open
/// another file.
pub proof fn changes_are_never_replaced(
    s: Sheet,
    path: Seq<char>,
    text: Seq<char>,
    label: Seq<char>,
    stamp: Option<Stamp>,
)
    requires
        s.dirty,
    ensures
        reloaded(s).text == s.text,
        reloaded(s).dirty,
        opened(s, path, text, label, stamp).text == s.text,
        opened(s, path, text, label, stamp).path == s.path,
        opened(s, path, text, label, stamp).dirty,
        close_asked(s).text == s.text,
        close_asked(s).dirty,
{
}

/// A document that could not be written still counts as changed, and the window stays.
pub proof fn failed_writes_keep_the_changes(s: Sheet, why: Seq<char>, stamp: Option<Stamp>)
    requires
        s.dirty,
        !s.close_confirmed,
    ensures
        saved(s, Some(why), stamp).dirty,
        autosaved(s, Some(why), stamp).dirty,
        close_saved(s, Some(why), stamp).dirty,
        !may_close(close_saved(s, Some(why), stamp)),
        saved(s, Some(why), stamp).text == s.text,
        saved(s, Some(why), stamp).message == Some("保存失败："@ + why),
{
}

/// What was written is not written again by itself.
pub proof fn written_documents_are_at_rest(s: Sheet, stamp: Option<Stamp>)
    ensures
        !autosave_due(saved(s, None, stamp)),
        !autosave_due(autosaved(s, None, stamp)),
        saved(s, None, stamp).saved == s.text,
{
}

/// What was said of a change on disk is not said again.
pub proof fn problems_are_told_once(
    s: Sheet,
    problem: Seq<char>,
    a: Option<Stamp>,
    b: Option<Stamp>,
    other: Option<Seq<char>>,
)
    ensures
        ({
            let once = Sheet { message: other, ..with_problem(s, problem, a) };
            with_problem(once, problem, b).message == other
        }),
{
}

/// A clean document takes over what is on disk, all of it, and counts as saved.
pub proof fn clean_documents_follow_the_disk(s: Sheet, text: Seq<char>, stamp: Stamp)
    requires
        !s.dirty,
    ensures
        ({
            let read = Sheet { stamp: Some(stamp), pending: Some((text, stamp)), ..s };
            let after = reloaded(read);
            &&& after.text == text
            &&& after.saved == text
            &&& !after.dirty
            &&& after.stamp == Some(stamp)
            &&& after.pending is None
            &&& after.path == s.path
            &&& !autosave_due(after)
        }),
{
}

/// What is typed is kept and written: a change reaches the document whole, counts as unsaved
/// until it is on disk, and is what then is on disk.
pub proof fn changes_are_written_as_they_are(s: Sheet, text: Seq<char>, stamp: Option<Stamp>)
    requires
        text != s.text,
    ensures
        changed(s, text).text == text,
        changed(s, text).dirty,
        changed(s, text).saved == s.saved,
        changed(s, text).path == s.path,
        saved(changed(s, text), None, stamp).saved == text,
        saved(changed(s, text), None, stamp).text == text,
        !saved(changed(s, text), None, stamp).dirty,
        s.autosave && s.explicit_file && text != s.saved ==> autosave_due(changed(s, text)),
        !s.autosave || !s.explicit_file ==> !autosave_due(changed(s, text)),
{
}

/// A file that is opened from a clean document is shown as it was read, under its own path.
pub proof fn opened_files_are_shown_as_read(
    s: Sheet,
    path: Seq<char>,
    text: Seq<char>,
    label: Seq<char>,
    stamp: Option<Stamp>,
)
    requires
        !s.dirty,
    ensures
        opened(s, path, text, label, stamp).text == text,
        opened(s, path, text, label, stamp).saved == text,
        opened(s, path, text, label, stamp).path == path,
        opened(s, path, text, label, stamp).explicit_file,
        opened(s, path, text, label, stamp).stamp == stamp,
        opened(s, path, text, label, stamp).pending is None,
        !opened(s, path, text, label, stamp).dirty,
{
}

/// The window closes after the user's answer, and only asks where something is unsaved.
pub proof fn closing_asks_only_for_changes(s: Sheet, stamp: Option<Stamp>)
    ensures
        !s.dirty ==> may_close(s) && close_asked(s) == s,
        s.dirty && !s.close_confirmed ==> !may_close(s) && close_asked(s).close_prompt,
        may_close(close_saved(s, None, stamp)),
        close_saved(s, None, stamp).saved == s.text,
        may_close(close_discarded(s)),
        close_discarded(s).saved == s.saved,
{
}

} // verus!
