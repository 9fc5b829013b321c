//! Settings that last: their text form, `key=value` line by line.

use vstd::prelude::*;
use vstd::string::*;

use crate::decimal;
use crate::decimal::{read_i32, signed};
use crate::number;
use crate::number::is_finite;
use crate::path::{join, joined_path};
use crate::text;
use crate::text::{optional, pieces, said, search, trimmed, views};

verus! {

/// Where a window stands and how large it is: x, y, width, height.
pub type WindowBox = (i32, i32, i32, i32);

pub const FILE_NAME: &'static str = "settings.conf";

/// The directory that the settings have to themselves.
pub const DIR_NAME: &'static str = "typst-live";

/// Where the settings are kept: among the application data, else in the home directory,
/// else where the program runs.
pub open spec fn settings_path(appdata: Option<Seq<char>>, home: Option<Seq<char>>) -> Seq<char> {
    match (appdata, home) {
        (Some(dir), _) => joined_path(joined_path(dir, DIR_NAME@), FILE_NAME@),
        (None, Some(dir)) => joined_path(
            joined_path(joined_path(dir, ".config"@), DIR_NAME@),
            FILE_NAME@,
        ),
        (None, None) => FILE_NAME@,
    }
}

/// Where the settings are kept, `appdata` and `home` being what the environment says of
/// `APPDATA` and `HOME`.
pub fn path(appdata: Option<&str>, home: Option<&str>) -> (r: String)
    ensures
        r@ == settings_path(said(appdata), said(home)),
{
    let dir = match (appdata, home) {
        (Some(dir), _) => join(dir, DIR_NAME),
        (None, Some(dir)) => {
            let config = join(dir, ".config");
            join(config.as_str(), DIR_NAME)
        },
        (None, None) => {
            return FILE_NAME.to_owned();
        },
    };
    join(dir.as_str(), FILE_NAME)
}

/// How many recent directories are remembered.
pub const MAX_RECENT_DIRS: usize = 8;

/// The line that a settings file begins with.
pub const HEADER: &'static str = "# typst-live 的设置。程序自己写，手改也认。";

/// All settings. What is absent is left to the program's defaults.
#[derive(Debug, Clone, PartialEq)]
pub struct Settings {
    pub window: Option<WindowBox>,
    /// The file that was open last.
    pub file: Option<String>,
    /// The zoom factor, as it is written.
    pub zoom: Option<String>,
    /// The AI endpoint.
    pub ai_base_url: Option<String>,
    /// The AI model.
    pub ai_model: Option<String>,
    /// The AI key.
    pub ai_api_key: Option<String>,
    /// The name of the theme.
    pub theme: Option<String>,
    /// What is behind the pages: `solid` or `grid`.
    pub preview_bg: Option<String>,
    /// Whether the preview follows the cursor.
    pub follow_cursor: Option<bool>,
    /// Whether code can be folded.
    pub folding: Option<bool>,
    /// Whether the status bar shows how long things took.
    pub show_metrics: Option<bool>,
    /// Whether the file is saved when typing pauses.
    pub autosave: Option<bool>,
    /// Whether the directory tree is shown.
    pub show_tree: Option<bool>,
    /// Whether the editor is shown.
    pub show_editor: Option<bool>,
    /// Whether the preview is shown.
    pub show_preview: Option<bool>,
    /// Whether the toolbar is shown.
    pub show_toolbar: Option<bool>,
    /// Whether the status bar is shown.
    pub show_statusbar: Option<bool>,
    /// Whether a recording takes the microphone along.
    pub record_mic: Option<bool>,
    /// Whether a recording takes the camera along.
    pub record_cam: Option<bool>,
    /// Directories used lately, the latest first.
    pub recent_dirs: Vec<String>,
}

/// Settings as texts.
#[verifier::ext_equal]
pub struct Prefs {
    pub window: Option<WindowBox>,
    pub file: Option<Seq<char>>,
    pub zoom: Option<Seq<char>>,
    pub ai_base_url: Option<Seq<char>>,
    pub ai_model: Option<Seq<char>>,
    pub ai_api_key: Option<Seq<char>>,
    pub theme: Option<Seq<char>>,
    pub preview_bg: Option<Seq<char>>,
    pub follow_cursor: Option<bool>,
    pub folding: Option<bool>,
    pub show_metrics: Option<bool>,
    pub autosave: Option<bool>,
    pub show_tree: Option<bool>,
    pub show_editor: Option<bool>,
    pub show_preview: Option<bool>,
    pub show_toolbar: Option<bool>,
    pub show_statusbar: Option<bool>,
    pub record_mic: Option<bool>,
    pub record_cam: Option<bool>,
    pub recent_dirs: Seq<Seq<char>>,
}

impl View for Settings {
    type V = Prefs;

    open spec fn view(&self) -> Prefs {
        Prefs {
            window: self.window,
            file: optional(self.file),
            zoom: optional(self.zoom),
            ai_base_url: optional(self.ai_base_url),
            ai_model: optional(self.ai_model),
            ai_api_key: optional(self.ai_api_key),
            theme: optional(self.theme),
            preview_bg: optional(self.preview_bg),
            follow_cursor: self.follow_cursor,
            folding: self.folding,
            show_metrics: self.show_metrics,
            autosave: self.autosave,
            show_tree: self.show_tree,
            show_editor: self.show_editor,
            show_preview: self.show_preview,
            show_toolbar: self.show_toolbar,
            show_statusbar: self.show_statusbar,
            record_mic: self.record_mic,
            record_cam: self.record_cam,
            recent_dirs: views(self.recent_dirs@),
        }
    }
}

/// Nothing is set.
pub open spec fn no_prefs() -> Prefs {
    Prefs {
        window: None,
        file: None,
        zoom: None,
        ai_base_url: None,
        ai_model: None,
        ai_api_key: None,
        theme: None,
        preview_bg: None,
        follow_cursor: None,
        folding: None,
        show_metrics: None,
        autosave: None,
        show_tree: None,
        show_editor: None,
        show_preview: None,
        show_toolbar: None,
        show_statusbar: None,
        record_mic: None,
        record_cam: None,
        recent_dirs: Seq::empty(),
    }
}

impl Default for Settings {
    fn default() -> (r: Self)
        ensures
            r@ == no_prefs(),
    {
        let r = Settings {
            window: None,
            file: None,
            zoom: None,
            ai_base_url: None,
            ai_model: None,
            ai_api_key: None,
            theme: None,
            preview_bg: None,
            follow_cursor: None,
            folding: None,
            show_metrics: None,
            autosave: None,
            show_tree: None,
            show_editor: None,
            show_preview: None,
            show_toolbar: None,
            show_statusbar: None,
            record_mic: None,
            record_cam: None,
            recent_dirs: Vec::new(),
        };
        assert(views(r.recent_dirs@) =~= Seq::empty());
        r
    }
}

/// The integer that a piece of text is, but for whitespace around it.
pub open spec fn integer_in(piece: Seq<char>) -> Option<int> {
    read_i32(trimmed(piece))
}

/// The window that a value describes: four integers with commas between them, the last
/// two positive.
pub open spec fn window_of(value: Seq<char>) -> Option<WindowBox> {
    let p = pieces(value, ',');
    if p.len() != 4 {
        None
    } else {
        match (integer_in(p[0]), integer_in(p[1]), integer_in(p[2]), integer_in(p[3])) {
            (Some(x), Some(y), Some(w), Some(h)) => if w > 0 && h > 0 {
                Some((x as i32, y as i32, w as i32, h as i32))
            } else {
                None
            },
            _ => None,
        }
    }
}

fn read_integer(piece: &str) -> (r: Option<i32>)
    ensures
        match r {
            Some(n) => integer_in(piece@) == Some(n as int),
            None => integer_in(piece@) is None,
        },
{
    let v = text::chars_of(piece);
    let n: usize = v.len();
    let (a, b) = text::trim_bounds(&v, 0, n);
    assert(v@.subrange(0, n as int) =~= v@);
    decimal::parse_i32(&v, a, b)
}

/// The window that a value describes.
pub fn parse_window(value: &str) -> (r: Option<WindowBox>)
    ensures
        r == window_of(value@),
{
    let parts = text::split(value, ',');
    let ghost p = views(parts@);
    if parts.len() != 4 {
        return None;
    }
    assert(p[0] == parts@[0]@ && p[1] == parts@[1]@ && p[2] == parts@[2]@ && p[3] == parts@[3]@);
    let x = read_integer(parts[0].as_str());
    let y = read_integer(parts[1].as_str());
    let w = read_integer(parts[2].as_str());
    let h = read_integer(parts[3].as_str());
    match (x, y, w, h) {
        (Some(x), Some(y), Some(w), Some(h)) => if w > 0 && h > 0 {
            Some((x, y, w, h))
        } else {
            None
        },
        _ => None,
    }
}

/// The truth value that a value is.
pub open spec fn bool_of(value: Seq<char>) -> Option<bool> {
    if value == "true"@ {
        Some(true)
    } else if value == "false"@ {
        Some(false)
    } else {
        None
    }
}

fn parse_bool(value: &str) -> (r: Option<bool>)
    ensures
        r == bool_of(value@),
{
    if text::same(value, "true") {
        Some(true)
    } else if text::same(value, "false") {
        Some(false)
    } else {
        None
    }
}

/// A window that can be read, or what was there before.
pub open spec fn window_or(value: Seq<char>, before: Option<WindowBox>) -> Option<WindowBox> {
    if window_of(value) is Some {
        window_of(value)
    } else {
        before
    }
}

/// A truth value that can be read, or what was there before.
pub open spec fn bool_or(value: Seq<char>, before: Option<bool>) -> Option<bool> {
    if bool_of(value) is Some {
        bool_of(value)
    } else {
        before
    }
}

fn keep_bool(value: &str, before: Option<bool>) -> (r: Option<bool>)
    ensures
        r == bool_or(value@, before),
{
    match parse_bool(value) {
        Some(on) => Some(on),
        None => before,
    }
}

/// A number with a finite value, or what was there before.
pub open spec fn number_or(value: Seq<char>, before: Option<Seq<char>>) -> Option<Seq<char>> {
    if is_finite(value) {
        Some(value)
    } else {
        before
    }
}

/// A value that is there, or what was there before where it is empty.
pub open spec fn unless_empty(value: Seq<char>, before: Option<Seq<char>>) -> Option<Seq<char>> {
    if value.len() == 0 {
        before
    } else {
        Some(value)
    }
}

/// The settings after `key` was read with `value`. A key that is not known changes
/// nothing, nor does a value that cannot be read, nor an empty text.
#[verifier::opaque]
pub open spec fn with_item(p: Prefs, key: Seq<char>, value: Seq<char>) -> Prefs {
    if key == "window"@ {
        Prefs { window: window_or(value, p.window), ..p }
    } else if key == "zoom"@ {
        Prefs { zoom: number_or(value, p.zoom), ..p }
    } else if key == "file"@ {
        Prefs { file: unless_empty(value, p.file), ..p }
    } else if key == "theme"@ {
        Prefs { theme: unless_empty(value, p.theme), ..p }
    } else if key == "preview_bg"@ {
        Prefs { preview_bg: unless_empty(value, p.preview_bg), ..p }
    } else if key == "ai_base_url"@ {
        Prefs { ai_base_url: unless_empty(value, p.ai_base_url), ..p }
    } else if key == "ai_model"@ {
        Prefs { ai_model: unless_empty(value, p.ai_model), ..p }
    } else if key == "ai_api_key"@ {
        Prefs { ai_api_key: unless_empty(value, p.ai_api_key), ..p }
    } else if key == "follow_cursor"@ {
        Prefs { follow_cursor: bool_or(value, p.follow_cursor), ..p }
    } else if key == "folding"@ {
        Prefs { folding: bool_or(value, p.folding), ..p }
    } else if key == "show_metrics"@ {
        Prefs { show_metrics: bool_or(value, p.show_metrics), ..p }
    } else if key == "autosave"@ {
        Prefs { autosave: bool_or(value, p.autosave), ..p }
    } else if key == "show_tree"@ {
        Prefs { show_tree: bool_or(value, p.show_tree), ..p }
    } else if key == "show_editor"@ {
        Prefs { show_editor: bool_or(value, p.show_editor), ..p }
    } else if key == "show_preview"@ {
        Prefs { show_preview: bool_or(value, p.show_preview), ..p }
    } else if key == "show_toolbar"@ {
        Prefs { show_toolbar: bool_or(value, p.show_toolbar), ..p }
    } else if key == "show_statusbar"@ {
        Prefs { show_statusbar: bool_or(value, p.show_statusbar), ..p }
    } else if key == "record_mic"@ {
        Prefs { record_mic: bool_or(value, p.record_mic), ..p }
    } else if key == "record_cam"@ {
        Prefs { record_cam: bool_or(value, p.record_cam), ..p }
    } else if key == "recent_dir"@ && value.len() > 0 && p.recent_dirs.len() < MAX_RECENT_DIRS {
        Prefs { recent_dirs: p.recent_dirs.push(value), ..p }
    } else {
        p
    }
}

/// The settings after a line was read. A blank line, a comment and a line without
/// `=` change nothing.
pub open spec fn with_line(p: Prefs, line: Seq<char>) -> Prefs {
    let t = trimmed(line);
    let eq = search(t, "="@, 0);
    if t.len() == 0 || t[0] == '#' || eq < 0 {
        p
    } else {
        with_item(p, trimmed(t.take(eq)), trimmed(t.skip(eq + 1)))
    }
}

/// The settings after lines were read in order.
pub open spec fn with_lines(p: Prefs, lines: Seq<Seq<char>>) -> Prefs
    decreases lines.len(),
{
    if lines.len() == 0 {
        p
    } else {
        with_line(with_lines(p, lines.drop_last()), lines.last())
    }
}

/// What a settings file says.
pub open spec fn parsed(s: Seq<char>) -> Prefs {
    with_lines(no_prefs(), pieces(s, '\n'))
}

/// A line of a settings file.
pub open spec fn entry(key: Seq<char>, value: Seq<char>) -> Seq<char> {
    key + "="@ + value
}

/// The line for an optional value: none where it is absent.
pub open spec fn entry_for(key: Seq<char>, value: Option<Seq<char>>) -> Seq<Seq<char>> {
    match value {
        Some(v) => seq![entry(key, v)],
        None => Seq::empty(),
    }
}

/// A truth value as it is written.
pub open spec fn bool_text(on: bool) -> Seq<char> {
    if on {
        "true"@
    } else {
        "false"@
    }
}

/// An optional truth value as it is written.
pub open spec fn flag_text(on: Option<bool>) -> Option<Seq<char>> {
    match on {
        Some(b) => Some(bool_text(b)),
        None => None,
    }
}

/// A window as it is written.
pub open spec fn window_text(w: WindowBox) -> Seq<char> {
    signed(w.0 as int) + ","@ + signed(w.1 as int) + ","@ + signed(w.2 as int) + ","@ + signed(
        w.3 as int,
    )
}

/// An optional window as it is written.
pub open spec fn box_text(w: Option<WindowBox>) -> Option<Seq<char>> {
    match w {
        Some(b) => Some(window_text(b)),
        None => None,
    }
}

/// The directories that are written: no more than are remembered.
pub open spec fn written_dirs(dirs: Seq<Seq<char>>) -> Seq<Seq<char>> {
    if dirs.len() <= MAX_RECENT_DIRS {
        dirs
    } else {
        dirs.take(MAX_RECENT_DIRS as int)
    }
}

/// The lines of a settings file: one for each item that is there.
pub open spec fn written(p: Prefs) -> Seq<Seq<char>> {
    seq![HEADER@] + entry_for("window"@, box_text(p.window)) + entry_for("file"@, p.file)
        + entry_for("zoom"@, p.zoom) + entry_for("theme"@, p.theme) + entry_for(
        "preview_bg"@,
        p.preview_bg,
    ) + entry_for("follow_cursor"@, flag_text(p.follow_cursor)) + entry_for("folding"@, flag_text(p.folding)) + entry_for("show_metrics"@, flag_text(p.show_metrics)) + entry_for("autosave"@, flag_text(p.autosave)) + entry_for("show_tree"@, flag_text(p.show_tree)) + entry_for("show_editor"@, flag_text(p.show_editor)) + entry_for("show_preview"@, flag_text(p.show_preview)) + entry_for("show_toolbar"@, flag_text(p.show_toolbar)) + entry_for("show_statusbar"@, flag_text(p.show_statusbar)) + entry_for("record_mic"@, flag_text(p.record_mic)) + entry_for("record_cam"@, flag_text(p.record_cam)) + written_dirs(p.recent_dirs).map_values(
        |d: Seq<char>| entry("recent_dir"@, d),
    ) + entry_for("ai_base_url"@, p.ai_base_url) + entry_for("ai_model"@, p.ai_model) + entry_for(
        "ai_api_key"@,
        p.ai_api_key,
    )
}

/// Lines as one text, each with a newline.
pub open spec fn as_file(lines: Seq<Seq<char>>) -> Seq<char>
    decreases lines.len(),
{
    if lines.len() == 0 {
        Seq::empty()
    } else {
        as_file(lines.drop_last()) + lines.last() + seq!['\n']
    }
}

proof fn lemma_as_file_push(lines: Seq<Seq<char>>, line: Seq<char>)
    ensures
        as_file(lines.push(line)) == as_file(lines) + line + seq!['\n'],
{
    assert(lines.push(line).drop_last() =~= lines);
}

fn put(out: &mut String, key: &str, value: &str, Ghost(lines): Ghost<Seq<Seq<char>>>)
    requires
        old(out)@ == as_file(lines),
    ensures
        final(out)@ == as_file(lines.push(entry(key@, value@))),
{
    proof {
        reveal_strlit("\n");
        assert("\n"@ =~= seq!['\n']);
        lemma_as_file_push(lines, entry(key@, value@));
    }
    out.append(key);
    out.append("=");
    out.append(value);
    out.append("\n");
    assert(out@ =~= as_file(lines) + entry(key@, value@) + seq!['\n']);
}

fn put_text(out: &mut String, key: &str, value: &Option<String>, Ghost(lines): Ghost<
    Seq<Seq<char>>,
>)
    requires
        old(out)@ == as_file(lines),
    ensures
        final(out)@ == as_file(lines + entry_for(key@, optional(*value))),
{
    match value {
        Some(v) => {
            put(out, key, v.as_str(), Ghost(lines));
            assert(lines.push(entry(key@, v@)) =~= lines + entry_for(key@, optional(*value)));
        },
        None => {
            assert(lines + entry_for(key@, optional(*value)) =~= lines);
        },
    }
}

fn put_flag(out: &mut String, key: &str, value: Option<bool>, Ghost(lines): Ghost<Seq<Seq<char>>>)
    requires
        old(out)@ == as_file(lines),
    ensures
        final(out)@ == as_file(lines + entry_for(key@, flag_text(value))),
{
    match value {
        Some(on) => {
            let word = if on {
                "true"
            } else {
                "false"
            };
            put(out, key, word, Ghost(lines));
            assert(lines.push(entry(key@, bool_text(on))) =~= lines + entry_for(
                key@,
                flag_text(value),
            ));
        },
        None => {
            assert(lines + entry_for(key@, flag_text(value)) =~= lines);
        },
    }
}

fn put_window(out: &mut String, value: Option<WindowBox>, Ghost(lines): Ghost<Seq<Seq<char>>>)
    requires
        old(out)@ == as_file(lines),
    ensures
        final(out)@ == as_file(lines + entry_for("window"@, box_text(value))),
{
    match value {
        Some(w) => {
            let mut v = decimal::show_signed(w.0);
            v.append(",");
            let y = decimal::show_signed(w.1);
            v.append(y.as_str());
            v.append(",");
            let wide = decimal::show_signed(w.2);
            v.append(wide.as_str());
            v.append(",");
            let high = decimal::show_signed(w.3);
            v.append(high.as_str());
            put(out, "window", v.as_str(), Ghost(lines));
            assert(lines.push(entry("window"@, window_text(w))) =~= lines + entry_for(
                "window"@,
                box_text(value),
            ));
        },
        None => {
            assert(lines + entry_for("window"@, box_text(value)) =~= lines);
        },
    }
}

fn put_dirs(out: &mut String, dirs: &Vec<String>, Ghost(lines): Ghost<Seq<Seq<char>>>)
    requires
        old(out)@ == as_file(lines),
    ensures
        final(out)@ == as_file(
            lines + written_dirs(views(dirs@)).map_values(
                |d: Seq<char>| entry("recent_dir"@, d),
            ),
        ),
{
    let n: usize = if dirs.len() <= MAX_RECENT_DIRS {
        dirs.len()
    } else {
        MAX_RECENT_DIRS
    };
    let ghost add = written_dirs(views(dirs@)).map_values(|d: Seq<char>| entry("recent_dir"@, d));
    let mut i: usize = 0;
    assert(lines + add.take(0) =~= lines);
    while i < n
        invariant
            i <= n <= dirs@.len(),
            n == written_dirs(views(dirs@)).len(),
            add == written_dirs(views(dirs@)).map_values(|d: Seq<char>| entry("recent_dir"@, d)),
            out@ == as_file(lines + add.take(i as int)),
        decreases n - i,
    {
        put(out, "recent_dir", dirs[i].as_str(), Ghost(lines + add.take(i as int)));
        assert(add[i as int] == entry("recent_dir"@, dirs@[i as int]@));
        assert((lines + add.take(i as int)).push(add[i as int]) =~= lines + add.take(i + 1));
        i += 1;
    }
    assert(add.take(n as int) =~= add);
}

impl Settings {
    fn read_item(&mut self, key: &str, value: &str)
        ensures
            final(self)@ == with_item(old(self)@, key@, value@),
    {
        proof {
            reveal(with_item);
        }
        let empty = value.is_empty();
        if text::same(key, "window") {
            if let Some(window) = parse_window(value) {
                self.window = Some(window);
            }
        } else if text::same(key, "zoom") {
            if number::is_finite_number(value) {
                self.zoom = Some(value.to_owned());
            }
        } else if text::same(key, "file") {
            if !empty {
                self.file = Some(value.to_owned());
            }
        } else if text::same(key, "theme") {
            if !empty {
                self.theme = Some(value.to_owned());
            }
        } else if text::same(key, "preview_bg") {
            if !empty {
                self.preview_bg = Some(value.to_owned());
            }
        } else if text::same(key, "ai_base_url") {
            if !empty {
                self.ai_base_url = Some(value.to_owned());
            }
        } else if text::same(key, "ai_model") {
            if !empty {
                self.ai_model = Some(value.to_owned());
            }
        } else if text::same(key, "ai_api_key") {
            if !empty {
                self.ai_api_key = Some(value.to_owned());
            }
        } else if text::same(key, "follow_cursor") {
            self.follow_cursor = keep_bool(value, self.follow_cursor);
        } else if text::same(key, "folding") {
            self.folding = keep_bool(value, self.folding);
        } else if text::same(key, "show_metrics") {
            self.show_metrics = keep_bool(value, self.show_metrics);
        } else if text::same(key, "autosave") {
            self.autosave = keep_bool(value, self.autosave);
        } else if text::same(key, "show_tree") {
            self.show_tree = keep_bool(value, self.show_tree);
        } else if text::same(key, "show_editor") {
            self.show_editor = keep_bool(value, self.show_editor);
        } else if text::same(key, "show_preview") {
            self.show_preview = keep_bool(value, self.show_preview);
        } else if text::same(key, "show_toolbar") {
            self.show_toolbar = keep_bool(value, self.show_toolbar);
        } else if text::same(key, "show_statusbar") {
            self.show_statusbar = keep_bool(value, self.show_statusbar);
        } else if text::same(key, "record_mic") {
            self.record_mic = keep_bool(value, self.record_mic);
        } else if text::same(key, "record_cam") {
            self.record_cam = keep_bool(value, self.record_cam);
        } else if text::same(key, "recent_dir") && !empty && self.recent_dirs.len()
            < MAX_RECENT_DIRS {
            let ghost before = self.recent_dirs@;
            self.recent_dirs.push(value.to_owned());
            assert(views(self.recent_dirs@) =~= views(before).push(value@));
        }
        assert(self@ =~= with_item(old(self)@, key@, value@));
    }

    fn read_line(&mut self, line: &str)
        ensures
            final(self)@ == with_line(old(self)@, line@),
    {
        let trim = text::trim(line);
        let t = text::chars_of(trim.as_str());
        let n: usize = t.len();
        if n == 0 || t[0] == '#' {
            return;
        }
        proof {
            reveal_strlit("=");
        }
        let sign = text::chars_of("=");
        if let Some(eq) = text::find(&t, &sign, 0) {
            let (a, b) = text::trim_bounds(&t, 0, eq);
            let (c, d) = text::trim_bounds(&t, eq + 1, n);
            assert(t@.subrange(0, eq as int) =~= t@.take(eq as int));
            assert(t@.subrange(eq + 1, n as int) =~= t@.skip(eq + 1));
            let key = text::text_of(&t, a, b);
            let value = text::text_of(&t, c, d);
            self.read_item(key.as_str(), value.as_str());
        }
    }

    /// What a settings file says. No line is an error: what cannot be read is left
    /// out.
    pub fn parse(text: &str) -> (r: Self)
        ensures
            r@ == parsed(text@),
    {
        let lines = text::split(text, '\n');
        let ghost all = views(lines@);
        let mut out = Settings::default();
        let mut i: usize = 0;
        while i < lines.len()
            invariant
                i <= lines@.len(),
                all == views(lines@),
                out@ == with_lines(no_prefs(), all.take(i as int)),
            decreases lines@.len() - i,
        {
            assert(all.take(i + 1).drop_last() =~= all.take(i as int));
            assert(all.take(i + 1).last() == lines@[i as int]@);
            out.read_line(lines[i].as_str());
            i += 1;
        }
        assert(all.take(i as int) =~= all);
        out
    }

    /// The text of a settings file.
    pub fn render(&self) -> (r: String)
        ensures
            r@ == as_file(written(self@)),
    {
        let mut out = HEADER.to_owned();
        out.append("\n");
        let ghost mut lines = seq![HEADER@];
        proof {
            reveal_strlit("\n");
            reveal_with_fuel(as_file, 2);
            assert(lines.drop_last() =~= Seq::empty());
            assert(out@ =~= as_file(lines));
        }
        put_window(&mut out, self.window, Ghost(lines));
        proof {
            lines = lines + entry_for("window"@, box_text(self.window));
        }
        put_text(&mut out, "file", &self.file, Ghost(lines));
        proof {
            lines = lines + entry_for("file"@, optional(self.file));
        }
        put_text(&mut out, "zoom", &self.zoom, Ghost(lines));
        proof {
            lines = lines + entry_for("zoom"@, optional(self.zoom));
        }
        put_text(&mut out, "theme", &self.theme, Ghost(lines));
        proof {
            lines = lines + entry_for("theme"@, optional(self.theme));
        }
        put_text(&mut out, "preview_bg", &self.preview_bg, Ghost(lines));
        proof {
            lines = lines + entry_for("preview_bg"@, optional(self.preview_bg));
        }
        put_flag(&mut out, "follow_cursor", self.follow_cursor, Ghost(lines));
        proof {
            lines = lines + entry_for("follow_cursor"@, flag_text(self.follow_cursor));
        }
        put_flag(&mut out, "folding", self.folding, Ghost(lines));
        proof {
            lines = lines + entry_for("folding"@, flag_text(self.folding));
        }
        put_flag(&mut out, "show_metrics", self.show_metrics, Ghost(lines));
        proof {
            lines = lines + entry_for("show_metrics"@, flag_text(self.show_metrics));
        }
        put_flag(&mut out, "autosave", self.autosave, Ghost(lines));
        proof {
            lines = lines + entry_for("autosave"@, flag_text(self.autosave));
        }
        put_flag(&mut out, "show_tree", self.show_tree, Ghost(lines));
        proof {
            lines = lines + entry_for("show_tree"@, flag_text(self.show_tree));
        }
        put_flag(&mut out, "show_editor", self.show_editor, Ghost(lines));
        proof {
            lines = lines + entry_for("show_editor"@, flag_text(self.show_editor));
        }
        put_flag(&mut out, "show_preview", self.show_preview, Ghost(lines));
        proof {
            lines = lines + entry_for("show_preview"@, flag_text(self.show_preview));
        }
        put_flag(&mut out, "show_toolbar", self.show_toolbar, Ghost(lines));
        proof {
            lines = lines + entry_for("show_toolbar"@, flag_text(self.show_toolbar));
        }
        put_flag(&mut out, "show_statusbar", self.show_statusbar, Ghost(lines));
        proof {
            lines = lines + entry_for("show_statusbar"@, flag_text(self.show_statusbar));
        }
        put_flag(&mut out, "record_mic", self.record_mic, Ghost(lines));
        proof {
            lines = lines + entry_for("record_mic"@, flag_text(self.record_mic));
        }
        put_flag(&mut out, "record_cam", self.record_cam, Ghost(lines));
        proof {
            lines = lines + entry_for("record_cam"@, flag_text(self.record_cam));
        }
        put_dirs(&mut out, &self.recent_dirs, Ghost(lines));
        proof {
            lines = lines + written_dirs(views(self.recent_dirs@)).map_values(
                |d: Seq<char>| entry("recent_dir"@, d),
            );
        }
        put_text(&mut out, "ai_base_url", &self.ai_base_url, Ghost(lines));
        proof {
            lines = lines + entry_for("ai_base_url"@, optional(self.ai_base_url));
        }
        put_text(&mut out, "ai_model", &self.ai_model, Ghost(lines));
        proof {
            lines = lines + entry_for("ai_model"@, optional(self.ai_model));
        }
        put_text(&mut out, "ai_api_key", &self.ai_api_key, Ghost(lines));
        proof {
            lines = lines + entry_for("ai_api_key"@, optional(self.ai_api_key));
        }
        assert(lines == written(self@));
        out
    }
}

/// A text that a line can hold: one line, without whitespace at either end.
pub open spec fn fits_line(v: Seq<char>) -> bool {
    trimmed(v) == v && forall|i: int| 0 <= i < v.len() ==> #[trigger] v[i] != '\n'
}

/// An optional text that is not empty and that a line can hold.
pub open spec fn fits(v: Option<Seq<char>>) -> bool {
    match v {
        Some(t) => t.len() > 0 && fits_line(t),
        None => true,
    }
}

/// Settings that a file can hold: every text fits a line and is not empty, a window
/// has an area, the zoom is a number with a finite value, and there are no more directories than are remembered.
pub open spec fn storable(p: Prefs) -> bool {
    &&& p.window matches Some(w) ==> w.2 > 0 && w.3 > 0
    &&& fits(p.file)
    &&& p.zoom matches Some(z) ==> fits_line(z) && is_finite(z)
    &&& fits(p.theme)
    &&& fits(p.preview_bg)
    &&& p.recent_dirs.len() <= MAX_RECENT_DIRS
    &&& forall|i: int| 0 <= i < p.recent_dirs.len() ==> fits(Some(#[trigger] p.recent_dirs[i]))
    &&& fits(p.ai_base_url)
    &&& fits(p.ai_model)
    &&& fits(p.ai_api_key)
}

/// A key: not empty, without `=`, whitespace or a comment sign.
spec fn is_key(k: Seq<char>) -> bool {
    k.len() > 0 && forall|i: int|
        0 <= i < k.len() ==> ('a' <= #[trigger] k[i] <= 'z' || k[i] == '_')
}

proof fn lemma_entry_read(p: Prefs, key: Seq<char>, value: Seq<char>)
    requires
        is_key(key),
        trimmed(value) == value,
    ensures
        with_line(p, entry(key, value)) == with_item(p, key, value),
{
    reveal_strlit("=");
    let t = entry(key, value);
    assert("="@ =~= seq!['=']);
    assert(t[0] == key[0]);
    assert(t[key.len() as int] == '=');
    if value.len() == 0 {
        assert(t.last() == '=');
    } else {
        assert(t.last() == value.last());
        text::lemma_trimmed_ends(value);
    }
    text::lemma_trimmed_ends(t);
    let eq = key.len() as int;
    assert(t.subrange(eq, eq + 1) =~= seq!['=']);
    assert(text::occurs_at(t, "="@, eq));
    text::lemma_search(t, "="@, 0);
    assert(search(t, "="@, 0) == eq) by {
        let f = search(t, "="@, 0);
        if f < 0 {
            assert(!text::occurs_at(t, "="@, eq));
        } else if f < eq {
            assert(t.subrange(f, f + 1)[0] == t[f]);
            assert(t[f] == key[f]);
        } else if f > eq {
            assert(!text::occurs_at(t, "="@, eq));
        }
    }
    assert(t.take(eq) =~= key);
    assert(t.skip(eq + 1) =~= value);
    text::lemma_trimmed_ends(key);
}

proof fn lemma_lines_concat(p: Prefs, a: Seq<Seq<char>>, b: Seq<Seq<char>>)
    ensures
        with_lines(p, a + b) == with_lines(with_lines(p, a), b),
    decreases b.len(),
{
    if b.len() == 0 {
        assert(a + b =~= a);
    } else {
        lemma_lines_concat(p, a, b.drop_last());
        assert((a + b).drop_last() =~= a + b.drop_last());
        assert((a + b).last() == b.last());
    }
}

proof fn lemma_one_line(p: Prefs, line: Seq<char>)
    ensures
        with_lines(p, seq![line]) == with_line(p, line),
{
    reveal_with_fuel(with_lines, 2);
    assert(seq![line].drop_last() =~= Seq::empty());
}

/// Reading the line for an optional value, after other lines.
proof fn lemma_read_optional(p: Prefs, lines: Seq<Seq<char>>, key: Seq<char>, value: Option<Seq<char>>)
    requires
        is_key(key),
        value matches Some(v) ==> trimmed(v) == v,
    ensures
        with_lines(p, lines + entry_for(key, value)) == match value {
            Some(v) => with_item(with_lines(p, lines), key, v),
            None => with_lines(p, lines),
        },
{
    lemma_lines_concat(p, lines, entry_for(key, value));
    if value is Some {
        lemma_one_line(with_lines(p, lines), entry(key, value->0));
        lemma_entry_read(with_lines(p, lines), key, value->0);
    }
}

proof fn lemma_pieces_of_file(lines: Seq<Seq<char>>)
    requires
        forall|i: int, j: int|
            0 <= i < lines.len() && 0 <= j < lines[i].len() ==> #[trigger] lines[i][j] != '\n',
    ensures
        pieces(as_file(lines), '\n') == lines.push(Seq::empty()),
    decreases lines.len(),
{
    if lines.len() == 0 {
        assert(pieces(as_file(lines), '\n') =~= lines.push(Seq::empty()));
    } else {
        let prev = lines.drop_last();
        assert forall|i: int, j: int|
            0 <= i < prev.len() && 0 <= j < prev[i].len() implies #[trigger] prev[i][j] != '\n' by {
            assert(prev[i] == lines[i]);
            assert(lines[i][j] != '\n');
        }
        lemma_pieces_of_file(prev);
        let last = lines.last();
        assert forall|j: int| 0 <= j < last.len() implies last[j] != '\n' by {
            assert(lines[lines.len() - 1][j] != '\n');
        }
        text::lemma_pieces_append(as_file(prev), last, '\n');
        let whole = as_file(lines);
        assert(whole.drop_last() =~= as_file(prev) + last);
        assert(whole.last() == '\n');
        assert(prev.push(Seq::<char>::empty()).drop_last() =~= prev);
        assert(Seq::<char>::empty() + last =~= last);
        assert(prev.push(last) =~= lines);
    }
}

spec fn newline_free(lines: Seq<Seq<char>>) -> bool {
    forall|i: int, j: int|
        0 <= i < lines.len() && 0 <= j < lines[i].len() ==> #[trigger] lines[i][j] != '\n'
}

proof fn lemma_newline_free_concat(a: Seq<Seq<char>>, b: Seq<Seq<char>>)
    requires
        newline_free(a),
        newline_free(b),
    ensures
        newline_free(a + b),
{
    assert forall|i: int, j: int|
        0 <= i < (a + b).len() && 0 <= j < (a + b)[i].len() implies #[trigger] (a + b)[i][j]
        != '\n' by {
        if i < a.len() {
            assert((a + b)[i] == a[i]);
            assert(a[i][j] != '\n');
        } else {
            assert((a + b)[i] == b[i - a.len()]);
            assert(b[i - a.len()][j] != '\n');
        }
    }
}

proof fn lemma_newline_free_entry(key: Seq<char>, value: Option<Seq<char>>)
    requires
        is_key(key),
        value matches Some(v) ==> forall|i: int| 0 <= i < v.len() ==> #[trigger] v[i] != '\n',
    ensures
        newline_free(entry_for(key, value)),
{
    reveal_strlit("=");
    if value is Some {
        let v = value->0;
        let t = entry(key, v);
        assert forall|i: int, j: int|
            0 <= i < entry_for(key, value).len() && 0 <= j < entry_for(key, value)[i].len() implies #[trigger] entry_for(
            key,
            value,
        )[i][j] != '\n' by {
            assert(entry_for(key, value)[i] == t);
            if j < key.len() {
                assert(t[j] == key[j]);
            } else if j == key.len() {
                assert(t[j] == '=');
            } else {
                assert(t[j] == v[j - key.len() - 1]);
            }
        }
    }
}

/// A stretch of lines: each is an entry for a key, read by its item alone.
proof fn lemma_extend(lines: Seq<Seq<char>>, key: Seq<char>, value: Option<Seq<char>>)
    requires
        newline_free(lines),
        is_key(key),
        value matches Some(v) ==> fits_line(v),
    ensures
        newline_free(lines + entry_for(key, value)),
        with_lines(no_prefs(), lines + entry_for(key, value)) == match value {
            Some(v) => with_item(with_lines(no_prefs(), lines), key, v),
            None => with_lines(no_prefs(), lines),
        },
{
    lemma_newline_free_entry(key, value);
    lemma_newline_free_concat(lines, entry_for(key, value));
    lemma_read_optional(no_prefs(), lines, key, value);
}

proof fn lemma_integer_piece(n: i32)
    ensures
        read_i32(trimmed(signed(n as int))) == Some(n as int),
        forall|i: int| 0 <= i < signed(n as int).len() ==> #[trigger] signed(n as int)[i] != ','
            && signed(n as int)[i] != '\n',
        trimmed(signed(n as int)) == signed(n as int),
{
    decimal::integers_are_read_back(n);
    decimal::lemma_signed_chars(n as int);
    text::lemma_trimmed_ends(signed(n as int));
}

spec fn lacks(s: Seq<char>, c: char) -> bool {
    forall|i: int| 0 <= i < s.len() ==> #[trigger] s[i] != c
}

proof fn lemma_add_piece(done: Seq<char>, parts: Seq<Seq<char>>, p: Seq<char>)
    requires
        pieces(done, ',') == parts.push(Seq::empty()),
        lacks(p, ','),
    ensures
        pieces(done + p, ',') == parts.push(p),
        pieces((done + p).push(','), ',') == parts.push(p).push(Seq::empty()),
{
    text::lemma_pieces_append(done, p, ',');
    assert(Seq::<char>::empty() + p =~= p);
    assert(parts.push(Seq::<char>::empty()).drop_last() =~= parts);
    assert(pieces(done + p, ',') =~= parts.push(p));
    assert((done + p).push(',').drop_last() =~= done + p);
    assert(pieces((done + p).push(','), ',') =~= parts.push(p).push(Seq::empty()));
}

proof fn lemma_four_pieces(a: Seq<char>, b: Seq<char>, c: Seq<char>, d: Seq<char>)
    requires
        lacks(a, ','),
        lacks(b, ','),
        lacks(c, ','),
        lacks(d, ','),
    ensures
        pieces(a + ","@ + b + ","@ + c + ","@ + d, ',') == seq![a, b, c, d],
{
    reveal_strlit(",");
    let none = Seq::<char>::empty();
    let s1 = (none + a).push(',');
    let s2 = (s1 + b).push(',');
    let s3 = (s2 + c).push(',');
    assert(pieces(none, ',') =~= Seq::<Seq<char>>::empty().push(none));
    lemma_add_piece(none, Seq::empty(), a);
    lemma_add_piece(s1, Seq::empty().push(a), b);
    lemma_add_piece(s2, Seq::empty().push(a).push(b), c);
    lemma_add_piece(s3, Seq::empty().push(a).push(b).push(c), d);
    assert(a + ","@ + b + ","@ + c + ","@ + d =~= s3 + d);
    assert(seq![a, b, c, d] =~= Seq::empty().push(a).push(b).push(c).push(d));
}

proof fn lemma_lacks_concat(a: Seq<char>, b: Seq<char>, c: char)
    requires
        lacks(a, c),
        lacks(b, c),
    ensures
        lacks(a + b, c),
{
}

proof fn lemma_window_line(w: WindowBox)
    ensures
        fits_line(window_text(w)),
{
    reveal_strlit(",");
    let (a, b, c, d) = (signed(w.0 as int), signed(w.1 as int), signed(w.2 as int), signed(w.3 as int));
    lemma_integer_piece(w.0);
    lemma_integer_piece(w.1);
    lemma_integer_piece(w.2);
    lemma_integer_piece(w.3);
    lemma_lacks_concat(a, ","@, '\n');
    lemma_lacks_concat(a + ","@, b, '\n');
    lemma_lacks_concat(a + ","@ + b, ","@, '\n');
    lemma_lacks_concat(a + ","@ + b + ","@, c, '\n');
    lemma_lacks_concat(a + ","@ + b + ","@ + c, ","@, '\n');
    lemma_lacks_concat(a + ","@ + b + ","@ + c + ","@, d, '\n');
    let t = window_text(w);
    assert(lacks(t, '\n'));
    text::lemma_trimmed_ends(a);
    text::lemma_trimmed_ends(d);
    assert(t[0] == a[0]);
    assert(t.last() == d.last());
    text::lemma_trimmed_ends(t);
}

/// A window is read back from its notation.
pub proof fn windows_are_read_back(w: WindowBox)
    requires
        w.2 > 0,
        w.3 > 0,
    ensures
        window_of(window_text(w)) == Some(w),
        fits_line(window_text(w)),
{
    lemma_integer_piece(w.0);
    lemma_integer_piece(w.1);
    lemma_integer_piece(w.2);
    lemma_integer_piece(w.3);
    lemma_four_pieces(
        signed(w.0 as int),
        signed(w.1 as int),
        signed(w.2 as int),
        signed(w.3 as int),
    );
    lemma_window_line(w);
}

proof fn lemma_keys()
    ensures
        is_key("window"@),
        is_key("file"@),
        is_key("zoom"@),
        is_key("theme"@),
        is_key("preview_bg"@),
        is_key("follow_cursor"@),
        is_key("folding"@),
        is_key("show_metrics"@),
        is_key("autosave"@),
        is_key("show_tree"@),
        is_key("show_editor"@),
        is_key("show_preview"@),
        is_key("show_toolbar"@),
        is_key("show_statusbar"@),
        is_key("record_mic"@),
        is_key("record_cam"@),
        is_key("recent_dir"@),
        is_key("ai_base_url"@),
        is_key("ai_model"@),
        is_key("ai_api_key"@),
{
    reveal_strlit("window");
    reveal_strlit("file");
    reveal_strlit("zoom");
    reveal_strlit("theme");
    reveal_strlit("preview_bg");
    reveal_strlit("follow_cursor");
    reveal_strlit("folding");
    reveal_strlit("show_metrics");
    reveal_strlit("autosave");
    reveal_strlit("show_tree");
    reveal_strlit("show_editor");
    reveal_strlit("show_preview");
    reveal_strlit("show_toolbar");
    reveal_strlit("show_statusbar");
    reveal_strlit("record_mic");
    reveal_strlit("record_cam");
    reveal_strlit("recent_dir");
    reveal_strlit("ai_base_url");
    reveal_strlit("ai_model");
    reveal_strlit("ai_api_key");
}

/// Every key reads its own item and no other.
proof fn lemma_items(p: Prefs, v: Seq<char>)
    ensures
        with_item(p, "window"@, v) == (Prefs { window: window_or(v, p.window), ..p }),
        with_item(p, "zoom"@, v) == (Prefs { zoom: number_or(v, p.zoom), ..p }),
        with_item(p, "file"@, v) == (Prefs { file: unless_empty(v, p.file), ..p }),
        with_item(p, "theme"@, v) == (Prefs { theme: unless_empty(v, p.theme), ..p }),
        with_item(p, "preview_bg"@, v) == (Prefs { preview_bg: unless_empty(v, p.preview_bg), ..p }),
        with_item(p, "ai_base_url"@, v) == (Prefs { ai_base_url: unless_empty(v, p.ai_base_url), ..p }),
        with_item(p, "ai_model"@, v) == (Prefs { ai_model: unless_empty(v, p.ai_model), ..p }),
        with_item(p, "ai_api_key"@, v) == (Prefs { ai_api_key: unless_empty(v, p.ai_api_key), ..p }),
        with_item(p, "follow_cursor"@, v) == (Prefs { follow_cursor: bool_or(v, p.follow_cursor), ..p }),
        with_item(p, "folding"@, v) == (Prefs { folding: bool_or(v, p.folding), ..p }),
        with_item(p, "show_metrics"@, v) == (Prefs { show_metrics: bool_or(v, p.show_metrics), ..p }),
        with_item(p, "autosave"@, v) == (Prefs { autosave: bool_or(v, p.autosave), ..p }),
        with_item(p, "show_tree"@, v) == (Prefs { show_tree: bool_or(v, p.show_tree), ..p }),
        with_item(p, "show_editor"@, v) == (Prefs { show_editor: bool_or(v, p.show_editor), ..p }),
        with_item(p, "show_preview"@, v) == (Prefs { show_preview: bool_or(v, p.show_preview), ..p }),
        with_item(p, "show_toolbar"@, v) == (Prefs { show_toolbar: bool_or(v, p.show_toolbar), ..p }),
        with_item(p, "show_statusbar"@, v) == (Prefs { show_statusbar: bool_or(v, p.show_statusbar), ..p }),
        with_item(p, "record_mic"@, v) == (Prefs { record_mic: bool_or(v, p.record_mic), ..p }),
        with_item(p, "record_cam"@, v) == (Prefs { record_cam: bool_or(v, p.record_cam), ..p }),
        v.len() > 0 && p.recent_dirs.len() < MAX_RECENT_DIRS ==> with_item(p, "recent_dir"@, v) == (
        Prefs { recent_dirs: p.recent_dirs.push(v), ..p }),
{
    reveal_strlit("window");
    reveal_strlit("file");
    reveal_strlit("zoom");
    reveal_strlit("theme");
    reveal_strlit("preview_bg");
    reveal_strlit("follow_cursor");
    reveal_strlit("folding");
    reveal_strlit("show_metrics");
    reveal_strlit("autosave");
    reveal_strlit("show_tree");
    reveal_strlit("show_editor");
    reveal_strlit("show_preview");
    reveal_strlit("show_toolbar");
    reveal_strlit("show_statusbar");
    reveal_strlit("record_mic");
    reveal_strlit("record_cam");
    reveal_strlit("recent_dir");
    reveal_strlit("ai_base_url");
    reveal_strlit("ai_model");
    reveal_strlit("ai_api_key");
    assert("window"@.len() == 6);
    assert("file"@.len() == 4);
    assert("zoom"@.len() == 4);
    assert("theme"@.len() == 5);
    assert("preview_bg"@.len() == 10);
    assert("follow_cursor"@.len() == 13);
    assert("folding"@.len() == 7);
    assert("show_metrics"@.len() == 12);
    assert("autosave"@.len() == 8);
    assert("show_tree"@.len() == 9);
    assert("show_editor"@.len() == 11);
    assert("show_preview"@.len() == 12);
    assert("show_toolbar"@.len() == 12);
    assert("show_statusbar"@.len() == 14);
    assert("record_mic"@.len() == 10);
    assert("record_cam"@.len() == 10);
    assert("recent_dir"@.len() == 10);
    assert("ai_base_url"@.len() == 11);
    assert("ai_model"@.len() == 8);
    assert("ai_api_key"@.len() == 10);
    reveal(with_item);
    assert("file"@[0] == 'f');
    assert("zoom"@[0] == 'z');
    assert("autosave"@[1] == 'u');
    assert("ai_model"@[1] == 'i');
    assert("preview_bg"@[0] == 'p');
    assert("record_mic"@[0] == 'r');
    assert("record_cam"@[0] == 'r');
    assert("recent_dir"@[0] == 'r');
    assert("ai_api_key"@[0] == 'a');
    assert("record_mic"@[3] == 'o');
    assert("record_cam"@[3] == 'o');
    assert("recent_dir"@[3] == 'e');
    assert("record_mic"@[7] == 'm');
    assert("record_cam"@[7] == 'c');
    assert("show_editor"@[0] == 's');
    assert("ai_base_url"@[0] == 'a');
    assert("show_metrics"@[5] == 'm');
    assert("show_preview"@[5] == 'p');
    assert("show_toolbar"@[5] == 't');
}

proof fn lemma_bools()
    ensures
        forall|b: bool| bool_of(#[trigger] bool_text(b)) == Some(b),
        forall|b: bool| fits_line(#[trigger] bool_text(b)),
{
    reveal_strlit("true");
    reveal_strlit("false");
    assert forall|b: bool| fits_line(#[trigger] bool_text(b)) by {
        text::lemma_trimmed_ends("true"@);
        text::lemma_trimmed_ends("false"@);
    }
}

proof fn lemma_header(p: Prefs)
    ensures
        with_line(p, HEADER@) == p,
        newline_free(seq![HEADER@]),
{
    reveal_strlit("# typst-live 的设置。程序自己写，手改也认。");
    text::lemma_trimmed_first(HEADER@);
}

proof fn lemma_read_dirs(lines: Seq<Seq<char>>, dirs: Seq<Seq<char>>, p: Prefs)
    requires
        newline_free(lines),
        with_lines(no_prefs(), lines) == p,
        p.recent_dirs.len() == 0,
        dirs.len() <= MAX_RECENT_DIRS,
        forall|i: int| 0 <= i < dirs.len() ==> fits(Some(#[trigger] dirs[i])),
    ensures
        newline_free(lines + dirs.map_values(|d: Seq<char>| entry("recent_dir"@, d))),
        with_lines(
            no_prefs(),
            lines + dirs.map_values(|d: Seq<char>| entry("recent_dir"@, d)),
        ) == (Prefs { recent_dirs: dirs, ..p }),
    decreases dirs.len(),
{
    let f = |d: Seq<char>| entry("recent_dir"@, d);
    if dirs.len() == 0 {
        assert(lines + dirs.map_values(f) =~= lines);
        assert(p.recent_dirs =~= dirs);
    } else {
        let prev = dirs.drop_last();
        assert forall|i: int| 0 <= i < prev.len() implies fits(Some(#[trigger] prev[i])) by {
            assert(prev[i] == dirs[i]);
        }
        lemma_read_dirs(lines, prev, p);
        let d = dirs.last();
        assert(fits(Some(dirs[dirs.len() - 1])));
        lemma_keys();
        lemma_extend(lines + prev.map_values(f), "recent_dir"@, Some(d));
        assert(lines + dirs.map_values(f) =~= lines + prev.map_values(f) + entry_for(
            "recent_dir"@,
            Some(d),
        ));
        lemma_items(Prefs { recent_dirs: prev, ..p }, d);
        assert(prev.push(d) =~= dirs);
    }
}

/// The lines have no newline in them, and say `p`.
#[verifier::opaque]
spec fn say(lines: Seq<Seq<char>>, p: Prefs) -> bool {
    newline_free(lines) && with_lines(no_prefs(), lines) == p
}

/// What lines say after one more entry.
proof fn lemma_say_more(
    lines: Seq<Seq<char>>,
    p: Prefs,
    key: Seq<char>,
    value: Option<Seq<char>>,
    q: Prefs,
)
    requires
        say(lines, p),
        is_key(key),
        value matches Some(v) ==> fits_line(v),
        q == match value {
            Some(v) => with_item(p, key, v),
            None => p,
        },
    ensures
        say(lines + entry_for(key, value), q),
{
    reveal(say);
    lemma_extend(lines, key, value);
}

proof fn lemma_say_first(lines: Seq<Seq<char>>, s: Prefs, p: Prefs)
    requires
        storable(p),
        say(lines, s),
        s.window is None,
        s.file is None,
        s.zoom is None,
    ensures
        say(
            lines + entry_for("window"@, box_text(p.window)) + entry_for("file"@, p.file) + entry_for("zoom"@, p.zoom),
            Prefs { window: p.window, file: p.file, zoom: p.zoom, ..s },
        ),
{
    lemma_keys();
    lemma_bools();
    if p.window is Some {
        windows_are_read_back(p.window->0);
    }
    let l0 = lines;
    let s0 = s;
    let l1 = l0 + entry_for("window"@, box_text(p.window));
    let s1 = Prefs { window: p.window, ..s0 };
    assert(say(l1, s1)) by {
        if box_text(p.window) is Some {
            lemma_items(s0, box_text(p.window)->0);
        }
        lemma_say_more(l0, s0, "window"@, box_text(p.window), s1);
    }
    let l2 = l1 + entry_for("file"@, p.file);
    let s2 = Prefs { file: p.file, ..s1 };
    assert(say(l2, s2)) by {
        if p.file is Some {
            lemma_items(s1, p.file->0);
        }
        lemma_say_more(l1, s1, "file"@, p.file, s2);
    }
    let l3 = l2 + entry_for("zoom"@, p.zoom);
    let s3 = Prefs { zoom: p.zoom, ..s2 };
    assert(say(l3, s3)) by {
        if p.zoom is Some {
            lemma_items(s2, p.zoom->0);
        }
        lemma_say_more(l2, s2, "zoom"@, p.zoom, s3);
    }
}

proof fn lemma_say_second(lines: Seq<Seq<char>>, s: Prefs, p: Prefs)
    requires
        storable(p),
        say(lines, s),
        s.theme is None,
        s.preview_bg is None,
        s.follow_cursor is None,
        s.folding is None,
    ensures
        say(
            lines + entry_for("theme"@, p.theme) + entry_for("preview_bg"@, p.preview_bg) + entry_for("follow_cursor"@, flag_text(p.follow_cursor)) + entry_for("folding"@, flag_text(p.folding)),
            Prefs { theme: p.theme, preview_bg: p.preview_bg, follow_cursor: p.follow_cursor, folding: p.folding, ..s },
        ),
{
    lemma_keys();
    lemma_bools();
    let l0 = lines;
    let s0 = s;
    let l1 = l0 + entry_for("theme"@, p.theme);
    let s1 = Prefs { theme: p.theme, ..s0 };
    assert(say(l1, s1)) by {
        if p.theme is Some {
            lemma_items(s0, p.theme->0);
        }
        lemma_say_more(l0, s0, "theme"@, p.theme, s1);
    }
    let l2 = l1 + entry_for("preview_bg"@, p.preview_bg);
    let s2 = Prefs { preview_bg: p.preview_bg, ..s1 };
    assert(say(l2, s2)) by {
        if p.preview_bg is Some {
            lemma_items(s1, p.preview_bg->0);
        }
        lemma_say_more(l1, s1, "preview_bg"@, p.preview_bg, s2);
    }
    let l3 = l2 + entry_for("follow_cursor"@, flag_text(p.follow_cursor));
    let s3 = Prefs { follow_cursor: p.follow_cursor, ..s2 };
    assert(say(l3, s3)) by {
        if flag_text(p.follow_cursor) is Some {
            lemma_items(s2, flag_text(p.follow_cursor)->0);
        }
        lemma_say_more(l2, s2, "follow_cursor"@, flag_text(p.follow_cursor), s3);
    }
    let l4 = l3 + entry_for("folding"@, flag_text(p.folding));
    let s4 = Prefs { folding: p.folding, ..s3 };
    assert(say(l4, s4)) by {
        if flag_text(p.folding) is Some {
            lemma_items(s3, flag_text(p.folding)->0);
        }
        lemma_say_more(l3, s3, "folding"@, flag_text(p.folding), s4);
    }
}

proof fn lemma_say_third(lines: Seq<Seq<char>>, s: Prefs, p: Prefs)
    requires
        storable(p),
        say(lines, s),
        s.show_metrics is None,
        s.autosave is None,
        s.show_tree is None,
        s.show_editor is None,
    ensures
        say(
            lines + entry_for("show_metrics"@, flag_text(p.show_metrics)) + entry_for("autosave"@, flag_text(p.autosave)) + entry_for("show_tree"@, flag_text(p.show_tree)) + entry_for("show_editor"@, flag_text(p.show_editor)),
            Prefs { show_metrics: p.show_metrics, autosave: p.autosave, show_tree: p.show_tree, show_editor: p.show_editor, ..s },
        ),
{
    lemma_keys();
    lemma_bools();
    let l0 = lines;
    let s0 = s;
    let l1 = l0 + entry_for("show_metrics"@, flag_text(p.show_metrics));
    let s1 = Prefs { show_metrics: p.show_metrics, ..s0 };
    assert(say(l1, s1)) by {
        if flag_text(p.show_metrics) is Some {
            lemma_items(s0, flag_text(p.show_metrics)->0);
        }
        lemma_say_more(l0, s0, "show_metrics"@, flag_text(p.show_metrics), s1);
    }
    let l2 = l1 + entry_for("autosave"@, flag_text(p.autosave));
    let s2 = Prefs { autosave: p.autosave, ..s1 };
    assert(say(l2, s2)) by {
        if flag_text(p.autosave) is Some {
            lemma_items(s1, flag_text(p.autosave)->0);
        }
        lemma_say_more(l1, s1, "autosave"@, flag_text(p.autosave), s2);
    }
    let l3 = l2 + entry_for("show_tree"@, flag_text(p.show_tree));
    let s3 = Prefs { show_tree: p.show_tree, ..s2 };
    assert(say(l3, s3)) by {
        if flag_text(p.show_tree) is Some {
            lemma_items(s2, flag_text(p.show_tree)->0);
        }
        lemma_say_more(l2, s2, "show_tree"@, flag_text(p.show_tree), s3);
    }
    let l4 = l3 + entry_for("show_editor"@, flag_text(p.show_editor));
    let s4 = Prefs { show_editor: p.show_editor, ..s3 };
    assert(say(l4, s4)) by {
        if flag_text(p.show_editor) is Some {
            lemma_items(s3, flag_text(p.show_editor)->0);
        }
        lemma_say_more(l3, s3, "show_editor"@, flag_text(p.show_editor), s4);
    }
}

proof fn lemma_say_fourth(lines: Seq<Seq<char>>, s: Prefs, p: Prefs)
    requires
        storable(p),
        say(lines, s),
        s.show_preview is None,
        s.show_toolbar is None,
        s.show_statusbar is None,
        s.record_mic is None,
        s.record_cam is None,
    ensures
        say(
            lines + entry_for("show_preview"@, flag_text(p.show_preview)) + entry_for("show_toolbar"@, flag_text(p.show_toolbar)) + entry_for("show_statusbar"@, flag_text(p.show_statusbar)) + entry_for("record_mic"@, flag_text(p.record_mic)) + entry_for("record_cam"@, flag_text(p.record_cam)),
            Prefs { show_preview: p.show_preview, show_toolbar: p.show_toolbar, show_statusbar: p.show_statusbar, record_mic: p.record_mic, record_cam: p.record_cam, ..s },
        ),
{
    lemma_keys();
    lemma_bools();
    let l0 = lines;
    let s0 = s;
    let l1 = l0 + entry_for("show_preview"@, flag_text(p.show_preview));
    let s1 = Prefs { show_preview: p.show_preview, ..s0 };
    assert(say(l1, s1)) by {
        if flag_text(p.show_preview) is Some {
            lemma_items(s0, flag_text(p.show_preview)->0);
        }
        lemma_say_more(l0, s0, "show_preview"@, flag_text(p.show_preview), s1);
    }
    let l2 = l1 + entry_for("show_toolbar"@, flag_text(p.show_toolbar));
    let s2 = Prefs { show_toolbar: p.show_toolbar, ..s1 };
    assert(say(l2, s2)) by {
        if flag_text(p.show_toolbar) is Some {
            lemma_items(s1, flag_text(p.show_toolbar)->0);
        }
        lemma_say_more(l1, s1, "show_toolbar"@, flag_text(p.show_toolbar), s2);
    }
    let l3 = l2 + entry_for("show_statusbar"@, flag_text(p.show_statusbar));
    let s3 = Prefs { show_statusbar: p.show_statusbar, ..s2 };
    assert(say(l3, s3)) by {
        if flag_text(p.show_statusbar) is Some {
            lemma_items(s2, flag_text(p.show_statusbar)->0);
        }
        lemma_say_more(l2, s2, "show_statusbar"@, flag_text(p.show_statusbar), s3);
    }
    let l4 = l3 + entry_for("record_mic"@, flag_text(p.record_mic));
    let s4 = Prefs { record_mic: p.record_mic, ..s3 };
    assert(say(l4, s4)) by {
        if flag_text(p.record_mic) is Some {
            lemma_items(s3, flag_text(p.record_mic)->0);
        }
        lemma_say_more(l3, s3, "record_mic"@, flag_text(p.record_mic), s4);
    }
    let l5 = l4 + entry_for("record_cam"@, flag_text(p.record_cam));
    let s5 = Prefs { record_cam: p.record_cam, ..s4 };
    assert(say(l5, s5)) by {
        if flag_text(p.record_cam) is Some {
            lemma_items(s4, flag_text(p.record_cam)->0);
        }
        lemma_say_more(l4, s4, "record_cam"@, flag_text(p.record_cam), s5);
    }
}

proof fn lemma_say_last(lines: Seq<Seq<char>>, s: Prefs, p: Prefs)
    requires
        storable(p),
        say(lines, s),
        s.ai_base_url is None,
        s.ai_model is None,
        s.ai_api_key is None,
    ensures
        say(
            lines + entry_for("ai_base_url"@, p.ai_base_url) + entry_for("ai_model"@, p.ai_model) + entry_for("ai_api_key"@, p.ai_api_key),
            Prefs { ai_base_url: p.ai_base_url, ai_model: p.ai_model, ai_api_key: p.ai_api_key, ..s },
        ),
{
    lemma_keys();
    lemma_bools();
    let l0 = lines;
    let s0 = s;
    let l1 = l0 + entry_for("ai_base_url"@, p.ai_base_url);
    let s1 = Prefs { ai_base_url: p.ai_base_url, ..s0 };
    assert(say(l1, s1)) by {
        if p.ai_base_url is Some {
            lemma_items(s0, p.ai_base_url->0);
        }
        lemma_say_more(l0, s0, "ai_base_url"@, p.ai_base_url, s1);
    }
    let l2 = l1 + entry_for("ai_model"@, p.ai_model);
    let s2 = Prefs { ai_model: p.ai_model, ..s1 };
    assert(say(l2, s2)) by {
        if p.ai_model is Some {
            lemma_items(s1, p.ai_model->0);
        }
        lemma_say_more(l1, s1, "ai_model"@, p.ai_model, s2);
    }
    let l3 = l2 + entry_for("ai_api_key"@, p.ai_api_key);
    let s3 = Prefs { ai_api_key: p.ai_api_key, ..s2 };
    assert(say(l3, s3)) by {
        if p.ai_api_key is Some {
            lemma_items(s2, p.ai_api_key->0);
        }
        lemma_say_more(l2, s2, "ai_api_key"@, p.ai_api_key, s3);
    }
}

/// What was written is read back: the settings of a file that was made from
/// settings a file can hold are those settings.
pub proof fn settings_are_read_back(p: Prefs)
    requires
        storable(p),
    ensures
        parsed(as_file(written(p))) == p,
{
    let l0 = seq![HEADER@];
    let s0 = no_prefs();
    assert(say(l0, s0)) by {
        reveal(say);
        lemma_header(no_prefs());
        lemma_one_line(no_prefs(), HEADER@);
    }
    lemma_say_first(l0, s0, p);
    let l1 = l0 + entry_for("window"@, box_text(p.window)) + entry_for("file"@, p.file) + entry_for("zoom"@, p.zoom);
    let s1 = Prefs { window: p.window, file: p.file, zoom: p.zoom, ..s0 };
    lemma_say_second(l1, s1, p);
    let l2 = l1 + entry_for("theme"@, p.theme) + entry_for("preview_bg"@, p.preview_bg) + entry_for("follow_cursor"@, flag_text(p.follow_cursor)) + entry_for("folding"@, flag_text(p.folding));
    let s2 = Prefs { theme: p.theme, preview_bg: p.preview_bg, follow_cursor: p.follow_cursor, folding: p.folding, ..s1 };
    lemma_say_third(l2, s2, p);
    let l3 = l2 + entry_for("show_metrics"@, flag_text(p.show_metrics)) + entry_for("autosave"@, flag_text(p.autosave)) + entry_for("show_tree"@, flag_text(p.show_tree)) + entry_for("show_editor"@, flag_text(p.show_editor));
    let s3 = Prefs { show_metrics: p.show_metrics, autosave: p.autosave, show_tree: p.show_tree, show_editor: p.show_editor, ..s2 };
    lemma_say_fourth(l3, s3, p);
    let l4 = l3 + entry_for("show_preview"@, flag_text(p.show_preview)) + entry_for("show_toolbar"@, flag_text(p.show_toolbar)) + entry_for("show_statusbar"@, flag_text(p.show_statusbar)) + entry_for("record_mic"@, flag_text(p.record_mic)) + entry_for("record_cam"@, flag_text(p.record_cam));
    let s4 = Prefs { show_preview: p.show_preview, show_toolbar: p.show_toolbar, show_statusbar: p.show_statusbar, record_mic: p.record_mic, record_cam: p.record_cam, ..s3 };
    let l5 = l4 + written_dirs(p.recent_dirs).map_values(
        |d: Seq<char>| entry("recent_dir"@, d),
    );
    let s5 = Prefs { recent_dirs: p.recent_dirs, ..s4 };
    assert(say(l5, s5)) by {
        reveal(say);
        lemma_read_dirs(l4, p.recent_dirs, s4);
    }
    lemma_say_last(l5, s5, p);
    let l6 = l5 + entry_for("ai_base_url"@, p.ai_base_url) + entry_for("ai_model"@, p.ai_model) + entry_for("ai_api_key"@, p.ai_api_key);
    let s6 = Prefs { ai_base_url: p.ai_base_url, ai_model: p.ai_model, ai_api_key: p.ai_api_key, ..s5 };
    assert(l6 == written(p));
    assert(s6 == p);
    reveal(say);
    lemma_pieces_of_file(l6);
    let none = Seq::<char>::empty();
    assert(l6.push(none).drop_last() =~= l6);
    assert(trimmed(none) =~= none);
}

fn same_text(a: &Option<String>, b: &Option<String>) -> (r: bool)
    ensures
        r == (optional(*a) == optional(*b)),
{
    match (a, b) {
        (Some(x), Some(y)) => text::same(x.as_str(), y.as_str()),
        (None, None) => true,
        _ => false,
    }
}

fn same_flag(a: Option<bool>, b: Option<bool>) -> (r: bool)
    ensures
        r == (a == b),
{
    match (a, b) {
        (Some(x), Some(y)) => x == y,
        (None, None) => true,
        _ => false,
    }
}

fn same_window(a: Option<WindowBox>, b: Option<WindowBox>) -> (r: bool)
    ensures
        r == (a == b),
{
    match (a, b) {
        (Some(x), Some(y)) => x.0 == y.0 && x.1 == y.1 && x.2 == y.2 && x.3 == y.3,
        (None, None) => true,
        _ => false,
    }
}

impl Settings {
    /// Whether both say the same, so that nothing is to be written.
    pub fn same(&self, other: &Settings) -> (r: bool)
        ensures
            r == (self@ == other@),
    {
        same_window(self.window, other.window) && same_text(&self.file, &other.file) && same_text(
            &self.zoom,
            &other.zoom,
        ) && same_text(&self.ai_base_url, &other.ai_base_url) && same_text(
            &self.ai_model,
            &other.ai_model,
        ) && same_text(&self.ai_api_key, &other.ai_api_key) && same_text(&self.theme, &other.theme)
            && same_text(&self.preview_bg, &other.preview_bg) && same_flag(
            self.follow_cursor,
            other.follow_cursor,
        ) && same_flag(self.folding, other.folding) && same_flag(
            self.show_metrics,
            other.show_metrics,
        ) && same_flag(self.autosave, other.autosave) && same_flag(self.show_tree, other.show_tree)
            && same_flag(self.show_editor, other.show_editor) && same_flag(
            self.show_preview,
            other.show_preview,
        ) && same_flag(self.show_toolbar, other.show_toolbar) && same_flag(
            self.show_statusbar,
            other.show_statusbar,
        ) && same_flag(self.record_mic, other.record_mic) && same_flag(
            self.record_cam,
            other.record_cam,
        ) && text::same_texts(&self.recent_dirs, &other.recent_dirs)
    }
}

proof fn lemma_lines_add(p: Prefs, a: Seq<Seq<char>>, b: Seq<Seq<char>>)
    ensures
        with_lines(p, a + b) == with_lines(with_lines(p, a), b),
    decreases b.len(),
{
    if b.len() == 0 {
        assert(a + b =~= a);
    } else {
        lemma_lines_add(p, a, b.drop_last());
        assert((a + b).drop_last() =~= a + b.drop_last());
    }
}

/// A settings file is read line by line, from the first to the last: what is added at its
/// end is read as if what came before it had been there already.
pub proof fn lines_are_read_in_order(s: Seq<char>, more: Seq<char>)
    ensures
        parsed(s + seq!['\n'] + more) == with_lines(parsed(s), pieces(more, '\n')),
{
    text::lemma_pieces_around(s, '\n', more);
    lemma_lines_add(no_prefs(), pieces(s, '\n'), pieces(more, '\n'));
}

proof fn lemma_one_piece(line: Seq<char>)
    requires
        forall|i: int| 0 <= i < line.len() ==> #[trigger] line[i] != '\n',
    ensures
        pieces(line, '\n') == seq![line],
{
    let none = Seq::<char>::empty();
    text::lemma_pieces_append(none, line, '\n');
    assert(none + line =~= line);
    assert(pieces(line, '\n') =~= seq![line]);
}

/// Blank lines, comments and lines without `=` say nothing, wherever they stand.
pub proof fn lines_that_say_nothing_are_passed_over(
    before: Seq<char>,
    line: Seq<char>,
    after: Seq<char>,
)
    requires
        forall|i: int| 0 <= i < line.len() ==> #[trigger] line[i] != '\n',
        ({
            ||| text::all_space(line)
            ||| trimmed(line).len() > 0 && trimmed(line)[0] == '#'
            ||| forall|i: int| 0 <= i < line.len() ==> #[trigger] line[i] != '='
        }),
    ensures
        parsed(before + seq!['\n'] + (line + seq!['\n'] + after)) == parsed(
            before + seq!['\n'] + after,
        ),
{
    let p = parsed(before);
    lines_are_read_in_order(before, line + seq!['\n'] + after);
    lines_are_read_in_order(before, after);
    text::lemma_pieces_around(line, '\n', after);
    lemma_one_piece(line);
    lemma_lines_add(p, seq![line], pieces(after, '\n'));
    let t = trimmed(line);
    text::trimming_takes_away_only_whitespace(line);
    let (a, b) = choose|a: Seq<char>, b: Seq<char>|
        text::all_space(a) && text::all_space(b) && #[trigger] (a + t + b) == line;
    if text::all_space(line) {
        if t.len() > 0 {
            assert(line[a.len() as int] == t[0]);
        }
    } else if !(t.len() > 0 && t[0] == '#') {
        reveal_strlit("=");
        assert forall|j: int| 0 <= j implies !#[trigger] text::occurs_at(t, "="@, j) by {
            if text::occurs_at(t, "="@, j) {
                assert(t.subrange(j, j + 1)[0] == '=');
                assert(line[a.len() + j] == t[j]);
            }
        }
        text::lemma_search_none(t, "="@, 0);
    }
    assert(with_line(p, line) == p);
    assert(seq![line].drop_last() =~= Seq::empty());
    reveal_with_fuel(with_lines, 2);
    assert(with_lines(p, seq![line]) == p);
}

/// Whitespace around a key and around a value counts for nothing, and so does a carriage
/// return at the end of the line.
pub proof fn whitespace_around_items_counts_for_nothing(
    p: Prefs,
    key: Seq<char>,
    value: Seq<char>,
    a: Seq<char>,
    b: Seq<char>,
    c: Seq<char>,
    d: Seq<char>,
)
    requires
        text::all_space(a) && text::all_space(b) && text::all_space(c) && text::all_space(d),
        key.len() > 0 && value.len() > 0,
        trimmed(key) == key,
        trimmed(value) == value,
        forall|i: int| 0 <= i < key.len() ==> #[trigger] key[i] != '=',
    ensures
        with_line(p, a + key + b + "="@ + c + value + d) == with_line(p, key + "="@ + value),
{
    let none = Seq::<char>::empty();
    lemma_item_line(p, key, value, a, b, c, d);
    lemma_item_line(p, key, value, none, none, none, none);
    assert(none + key + none + "="@ + none + value + none =~= key + "="@ + value);
}

proof fn lemma_all_space_trims(s: Seq<char>)
    requires
        text::all_space(s),
    ensures
        text::trim_start(s).len() == 0,
        text::trim_end(s).len() == 0,
{
    text::lemma_trim_start(s);
    text::lemma_trim_end(s);
    if text::trim_start(s).len() > 0 {
        assert(s[s.len() - text::trim_start(s).len()] == text::trim_start(s)[0]);
    }
    if text::trim_end(s).len() > 0 {
        assert(s[text::trim_end(s).len() - 1] == text::trim_end(s).last());
    }
}

proof fn lemma_item_line(
    p: Prefs,
    key: Seq<char>,
    value: Seq<char>,
    a: Seq<char>,
    b: Seq<char>,
    c: Seq<char>,
    d: Seq<char>,
)
    requires
        text::all_space(a) && text::all_space(b) && text::all_space(c) && text::all_space(d),
        key.len() > 0 && value.len() > 0,
        trimmed(key) == key,
        trimmed(value) == value,
        forall|i: int| 0 <= i < key.len() ==> #[trigger] key[i] != '=',
    ensures
        with_line(p, a + key + b + "="@ + c + value + d) == if key[0] == '#' {
            p
        } else {
            with_item(p, key, value)
        },
{
    let eq = "="@;
    let none = Seq::<char>::empty();
    reveal_strlit("=");
    let line = a + key + b + eq + c + value + d;
    let inside = key + b + eq + c + value;
    text::lemma_trimmed_ends(key);
    text::lemma_trimmed_ends(value);
    assert(line =~= a + inside + d);
    assert(inside.last() == value.last());
    text::lemma_trimmed_around(a, inside, d);
    lemma_all_space_trims(a);
    lemma_all_space_trims(b);
    lemma_all_space_trims(c);
    lemma_all_space_trims(d);
    let t = trimmed(line);
    assert(t =~= inside);
    let n = (key.len() + b.len()) as int;
    assert(t.subrange(n, n + 1) =~= eq);
    assert forall|j: int| 0 <= j < n implies !#[trigger] text::occurs_at(t, eq, j) by {
        if text::occurs_at(t, eq, j) {
            assert(t.subrange(j, j + 1)[0] == '=');
            if j < key.len() {
                assert(t[j] == key[j]);
            } else {
                assert(t[j] == b[j - key.len()]);
            }
        }
    }
    text::lemma_search_is(t, eq, 0, n);
    assert(t.take(n) =~= none + key + b);
    text::lemma_trimmed_around(none, key, b);
    assert(trimmed(t.take(n)) =~= key);
    assert(t.skip(n + 1) =~= c + value + none);
    text::lemma_trimmed_around(c, value, none);
    assert(trimmed(t.skip(n + 1)) =~= value);
}

/// A window or a zoom that cannot be read leaves what was there before.
pub proof fn unreadable_values_change_nothing(p: Prefs, value: Seq<char>)
    ensures
        window_of(value) is None ==> with_item(p, "window"@, value) == p,
        !is_finite(value) ==> with_item(p, "zoom"@, value) == p,
        window_of(value) is Some ==> with_item(p, "window"@, value) == (Prefs {
            window: window_of(value),
            ..p
        }),
        is_finite(value) ==> with_item(p, "zoom"@, value) == (Prefs { zoom: Some(value), ..p }),
{
    reveal(with_item);
    reveal_strlit("window");
    reveal_strlit("zoom");
    assert("window"@.len() != "zoom"@.len());
}

proof fn lemma_keys_differ()
    ensures
        "window"@ != "zoom"@,
        "window"@ != "file"@,
        "window"@ != "theme"@,
        "window"@ != "preview_bg"@,
        "window"@ != "ai_base_url"@,
        "window"@ != "ai_model"@,
        "window"@ != "ai_api_key"@,
        "window"@ != "follow_cursor"@,
        "window"@ != "folding"@,
        "window"@ != "show_metrics"@,
        "window"@ != "autosave"@,
        "window"@ != "show_tree"@,
        "window"@ != "show_editor"@,
        "window"@ != "show_preview"@,
        "window"@ != "show_toolbar"@,
        "window"@ != "show_statusbar"@,
        "window"@ != "record_mic"@,
        "window"@ != "record_cam"@,
        "window"@ != "recent_dir"@,
        "zoom"@ != "file"@,
        "zoom"@ != "theme"@,
        "zoom"@ != "preview_bg"@,
        "zoom"@ != "ai_base_url"@,
        "zoom"@ != "ai_model"@,
        "zoom"@ != "ai_api_key"@,
        "zoom"@ != "follow_cursor"@,
        "zoom"@ != "folding"@,
        "zoom"@ != "show_metrics"@,
        "zoom"@ != "autosave"@,
        "zoom"@ != "show_tree"@,
        "zoom"@ != "show_editor"@,
        "zoom"@ != "show_preview"@,
        "zoom"@ != "show_toolbar"@,
        "zoom"@ != "show_statusbar"@,
        "zoom"@ != "record_mic"@,
        "zoom"@ != "record_cam"@,
        "zoom"@ != "recent_dir"@,
        "file"@ != "theme"@,
        "file"@ != "preview_bg"@,
        "file"@ != "ai_base_url"@,
        "file"@ != "ai_model"@,
        "file"@ != "ai_api_key"@,
        "file"@ != "follow_cursor"@,
        "file"@ != "folding"@,
        "file"@ != "show_metrics"@,
        "file"@ != "autosave"@,
        "file"@ != "show_tree"@,
        "file"@ != "show_editor"@,
        "file"@ != "show_preview"@,
        "file"@ != "show_toolbar"@,
        "file"@ != "show_statusbar"@,
        "file"@ != "record_mic"@,
        "file"@ != "record_cam"@,
        "file"@ != "recent_dir"@,
        "theme"@ != "preview_bg"@,
        "theme"@ != "ai_base_url"@,
        "theme"@ != "ai_model"@,
        "theme"@ != "ai_api_key"@,
        "theme"@ != "follow_cursor"@,
        "theme"@ != "folding"@,
        "theme"@ != "show_metrics"@,
        "theme"@ != "autosave"@,
        "theme"@ != "show_tree"@,
        "theme"@ != "show_editor"@,
        "theme"@ != "show_preview"@,
        "theme"@ != "show_toolbar"@,
        "theme"@ != "show_statusbar"@,
        "theme"@ != "record_mic"@,
        "theme"@ != "record_cam"@,
        "theme"@ != "recent_dir"@,
        "preview_bg"@ != "ai_base_url"@,
        "preview_bg"@ != "ai_model"@,
        "preview_bg"@ != "ai_api_key"@,
        "preview_bg"@ != "follow_cursor"@,
        "preview_bg"@ != "folding"@,
        "preview_bg"@ != "show_metrics"@,
        "preview_bg"@ != "autosave"@,
        "preview_bg"@ != "show_tree"@,
        "preview_bg"@ != "show_editor"@,
        "preview_bg"@ != "show_preview"@,
        "preview_bg"@ != "show_toolbar"@,
        "preview_bg"@ != "show_statusbar"@,
        "preview_bg"@ != "record_mic"@,
        "preview_bg"@ != "record_cam"@,
        "preview_bg"@ != "recent_dir"@,
        "ai_base_url"@ != "ai_model"@,
        "ai_base_url"@ != "ai_api_key"@,
        "ai_base_url"@ != "follow_cursor"@,
        "ai_base_url"@ != "folding"@,
        "ai_base_url"@ != "show_metrics"@,
        "ai_base_url"@ != "autosave"@,
        "ai_base_url"@ != "show_tree"@,
        "ai_base_url"@ != "show_editor"@,
        "ai_base_url"@ != "show_preview"@,
        "ai_base_url"@ != "show_toolbar"@,
        "ai_base_url"@ != "show_statusbar"@,
        "ai_base_url"@ != "record_mic"@,
        "ai_base_url"@ != "record_cam"@,
        "ai_base_url"@ != "recent_dir"@,
        "ai_model"@ != "ai_api_key"@,
        "ai_model"@ != "follow_cursor"@,
        "ai_model"@ != "folding"@,
        "ai_model"@ != "show_metrics"@,
        "ai_model"@ != "autosave"@,
        "ai_model"@ != "show_tree"@,
        "ai_model"@ != "show_editor"@,
        "ai_model"@ != "show_preview"@,
        "ai_model"@ != "show_toolbar"@,
        "ai_model"@ != "show_statusbar"@,
        "ai_model"@ != "record_mic"@,
        "ai_model"@ != "record_cam"@,
        "ai_model"@ != "recent_dir"@,
        "ai_api_key"@ != "follow_cursor"@,
        "ai_api_key"@ != "folding"@,
        "ai_api_key"@ != "show_metrics"@,
        "ai_api_key"@ != "autosave"@,
        "ai_api_key"@ != "show_tree"@,
        "ai_api_key"@ != "show_editor"@,
        "ai_api_key"@ != "show_preview"@,
        "ai_api_key"@ != "show_toolbar"@,
        "ai_api_key"@ != "show_statusbar"@,
        "ai_api_key"@ != "record_mic"@,
        "ai_api_key"@ != "record_cam"@,
        "ai_api_key"@ != "recent_dir"@,
        "follow_cursor"@ != "folding"@,
        "follow_cursor"@ != "show_metrics"@,
        "follow_cursor"@ != "autosave"@,
        "follow_cursor"@ != "show_tree"@,
        "follow_cursor"@ != "show_editor"@,
        "follow_cursor"@ != "show_preview"@,
        "follow_cursor"@ != "show_toolbar"@,
        "follow_cursor"@ != "show_statusbar"@,
        "follow_cursor"@ != "record_mic"@,
        "follow_cursor"@ != "record_cam"@,
        "follow_cursor"@ != "recent_dir"@,
        "folding"@ != "show_metrics"@,
        "folding"@ != "autosave"@,
        "folding"@ != "show_tree"@,
        "folding"@ != "show_editor"@,
        "folding"@ != "show_preview"@,
        "folding"@ != "show_toolbar"@,
        "folding"@ != "show_statusbar"@,
        "folding"@ != "record_mic"@,
        "folding"@ != "record_cam"@,
        "folding"@ != "recent_dir"@,
        "show_metrics"@ != "autosave"@,
        "show_metrics"@ != "show_tree"@,
        "show_metrics"@ != "show_editor"@,
        "show_metrics"@ != "show_preview"@,
        "show_metrics"@ != "show_toolbar"@,
        "show_metrics"@ != "show_statusbar"@,
        "show_metrics"@ != "record_mic"@,
        "show_metrics"@ != "record_cam"@,
        "show_metrics"@ != "recent_dir"@,
        "autosave"@ != "show_tree"@,
        "autosave"@ != "show_editor"@,
        "autosave"@ != "show_preview"@,
        "autosave"@ != "show_toolbar"@,
        "autosave"@ != "show_statusbar"@,
        "autosave"@ != "record_mic"@,
        "autosave"@ != "record_cam"@,
        "autosave"@ != "recent_dir"@,
        "show_tree"@ != "show_editor"@,
        "show_tree"@ != "show_preview"@,
        "show_tree"@ != "show_toolbar"@,
        "show_tree"@ != "show_statusbar"@,
        "show_tree"@ != "record_mic"@,
        "show_tree"@ != "record_cam"@,
        "show_tree"@ != "recent_dir"@,
        "show_editor"@ != "show_preview"@,
        "show_editor"@ != "show_toolbar"@,
        "show_editor"@ != "show_statusbar"@,
        "show_editor"@ != "record_mic"@,
        "show_editor"@ != "record_cam"@,
        "show_editor"@ != "recent_dir"@,
        "show_preview"@ != "show_toolbar"@,
        "show_preview"@ != "show_statusbar"@,
        "show_preview"@ != "record_mic"@,
        "show_preview"@ != "record_cam"@,
        "show_preview"@ != "recent_dir"@,
        "show_toolbar"@ != "show_statusbar"@,
        "show_toolbar"@ != "record_mic"@,
        "show_toolbar"@ != "record_cam"@,
        "show_toolbar"@ != "recent_dir"@,
        "show_statusbar"@ != "record_mic"@,
        "show_statusbar"@ != "record_cam"@,
        "show_statusbar"@ != "recent_dir"@,
        "record_mic"@ != "record_cam"@,
        "record_mic"@ != "recent_dir"@,
        "record_cam"@ != "recent_dir"@,
{
    reveal_strlit("window");
    reveal_strlit("zoom");
    reveal_strlit("file");
    reveal_strlit("theme");
    reveal_strlit("preview_bg");
    reveal_strlit("ai_base_url");
    reveal_strlit("ai_model");
    reveal_strlit("ai_api_key");
    reveal_strlit("follow_cursor");
    reveal_strlit("folding");
    reveal_strlit("show_metrics");
    reveal_strlit("autosave");
    reveal_strlit("show_tree");
    reveal_strlit("show_editor");
    reveal_strlit("show_preview");
    reveal_strlit("show_toolbar");
    reveal_strlit("show_statusbar");
    reveal_strlit("record_mic");
    reveal_strlit("record_cam");
    reveal_strlit("recent_dir");
    assert("window"@.len() == 6);
    assert("zoom"@.len() == 4);
    assert("file"@.len() == 4);
    assert("theme"@.len() == 5);
    assert("preview_bg"@.len() == 10);
    assert("ai_base_url"@.len() == 11);
    assert("ai_model"@.len() == 8);
    assert("ai_api_key"@.len() == 10);
    assert("follow_cursor"@.len() == 13);
    assert("folding"@.len() == 7);
    assert("show_metrics"@.len() == 12);
    assert("autosave"@.len() == 8);
    assert("show_tree"@.len() == 9);
    assert("show_editor"@.len() == 11);
    assert("show_preview"@.len() == 12);
    assert("show_toolbar"@.len() == 12);
    assert("show_statusbar"@.len() == 14);
    assert("record_mic"@.len() == 10);
    assert("record_cam"@.len() == 10);
    assert("recent_dir"@.len() == 10);
    assert("zoom"@[0] != "file"@[0]);
    assert("preview_bg"@[0] != "ai_api_key"@[0]);
    assert("preview_bg"@[0] != "record_mic"@[0]);
    assert("preview_bg"@[0] != "record_cam"@[0]);
    assert("preview_bg"@[0] != "recent_dir"@[0]);
    assert("ai_api_key"@[0] != "record_mic"@[0]);
    assert("ai_api_key"@[0] != "record_cam"@[0]);
    assert("ai_api_key"@[0] != "recent_dir"@[0]);
    assert("record_mic"@[7] != "record_cam"@[7]);
    assert("record_mic"@[3] != "recent_dir"@[3]);
    assert("record_cam"@[3] != "recent_dir"@[3]);
    assert("ai_base_url"@[0] != "show_editor"@[0]);
    assert("ai_model"@[1] != "autosave"@[1]);
    assert("show_metrics"@[5] != "show_preview"@[5]);
    assert("show_metrics"@[5] != "show_toolbar"@[5]);
    assert("show_preview"@[5] != "show_toolbar"@[5]);
}

/// Each key sets the item that it is called after, and no other: texts as they are.
pub proof fn keys_set_what_they_name(p: Prefs, value: Seq<char>)
    ensures
        value.len() > 0 ==> with_item(p, "file"@, value) == (Prefs { file: Some(value), ..p }),
        value.len() > 0 ==> with_item(p, "theme"@, value) == (Prefs { theme: Some(value), ..p }),
        value.len() > 0 ==> with_item(p, "preview_bg"@, value) == (Prefs { preview_bg: Some(value), ..p }),
        value.len() > 0 ==> with_item(p, "ai_base_url"@, value) == (Prefs { ai_base_url: Some(value), ..p }),
        value.len() > 0 ==> with_item(p, "ai_model"@, value) == (Prefs { ai_model: Some(value), ..p }),
        value.len() > 0 ==> with_item(p, "ai_api_key"@, value) == (Prefs { ai_api_key: Some(value), ..p }),
        value.len() > 0 && p.recent_dirs.len() < MAX_RECENT_DIRS ==> with_item(
            p,
            "recent_dir"@,
            value,
        ) == (Prefs { recent_dirs: p.recent_dirs.push(value), ..p }),
{
    reveal(with_item);
    lemma_keys_differ();
}

/// Each key sets the item that it is called after, and no other: switches on or off.
pub proof fn switches_are_set_by_their_names(p: Prefs, on: bool)
    ensures
        with_item(p, "follow_cursor"@, bool_text(on)) == (Prefs { follow_cursor: Some(on), ..p }),
        with_item(p, "folding"@, bool_text(on)) == (Prefs { folding: Some(on), ..p }),
        with_item(p, "show_metrics"@, bool_text(on)) == (Prefs { show_metrics: Some(on), ..p }),
        with_item(p, "autosave"@, bool_text(on)) == (Prefs { autosave: Some(on), ..p }),
        with_item(p, "show_tree"@, bool_text(on)) == (Prefs { show_tree: Some(on), ..p }),
        with_item(p, "show_editor"@, bool_text(on)) == (Prefs { show_editor: Some(on), ..p }),
        with_item(p, "show_preview"@, bool_text(on)) == (Prefs { show_preview: Some(on), ..p }),
        with_item(p, "show_toolbar"@, bool_text(on)) == (Prefs { show_toolbar: Some(on), ..p }),
        with_item(p, "show_statusbar"@, bool_text(on)) == (Prefs { show_statusbar: Some(on), ..p }),
        with_item(p, "record_mic"@, bool_text(on)) == (Prefs { record_mic: Some(on), ..p }),
        with_item(p, "record_cam"@, bool_text(on)) == (Prefs { record_cam: Some(on), ..p }),
{
    reveal(with_item);
    lemma_keys_differ();
    reveal_strlit("true");
    reveal_strlit("false");
    assert("true"@.len() == 4);
    assert("false"@.len() == 5);
}

/// The settings are kept among the application data where there are any, else in the home
/// directory, else where the program runs.
pub proof fn settings_have_their_place(a: Seq<char>, h: Option<Seq<char>>)
    ensures
        settings_path(Some(a), h) == joined_path(joined_path(a, "typst-live"@), "settings.conf"@),
        settings_path(None, Some(a)) == joined_path(
            joined_path(joined_path(a, ".config"@), "typst-live"@),
            "settings.conf"@,
        ),
        settings_path(None, None) == "settings.conf"@,
{
}

} // verus!
