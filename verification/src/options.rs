//! What the user has switched on, as the program uses it and as settings keep it.

use vstd::prelude::*;
use vstd::string::*;

use crate::ai;
use crate::ai::{is_local, resolved, AI_BASE_URL_DEFAULT, AI_MODEL_DEFAULT};
use crate::settings::{Prefs, Settings, WindowBox};
use crate::text;
use crate::text::{optional, pieces, said, search, trimmed, views};

verus! {

/// What is behind the pages of the preview.
#[derive(Clone, Copy, PartialEq, Eq, Debug, Structural)]
pub enum PreviewBg {
    Solid,
    Grid,
}

impl PreviewBg {
    /// The background that a setting stands for; an unknown one is plain.
    pub open spec fn of(value: Option<Seq<char>>) -> PreviewBg {
        if value == Some("grid"@) {
            PreviewBg::Grid
        } else {
            PreviewBg::Solid
        }
    }

    /// The setting that stands for a background.
    pub open spec fn setting(self) -> Seq<char> {
        match self {
            PreviewBg::Solid => "solid"@,
            PreviewBg::Grid => "grid"@,
        }
    }

    /// What a background is called.
    pub open spec fn name(self) -> Seq<char> {
        match self {
            PreviewBg::Solid => "纯色"@,
            PreviewBg::Grid => "网格"@,
        }
    }

    /// The background that a setting stands for.
    pub fn from_setting(value: Option<&str>) -> (r: Self)
        ensures
            r == PreviewBg::of(said(value)),
    {
        match value {
            Some(v) => if text::same(v, "grid") {
                PreviewBg::Grid
            } else {
                PreviewBg::Solid
            },
            None => PreviewBg::Solid,
        }
    }

    /// The setting that stands for a background.
    pub fn as_setting(self) -> (r: &'static str)
        ensures
            r@ == self.setting(),
    {
        match self {
            PreviewBg::Solid => "solid",
            PreviewBg::Grid => "grid",
        }
    }

    /// What a background is called.
    pub fn label(self) -> (r: &'static str)
        ensures
            r@ == self.name(),
    {
        match self {
            PreviewBg::Solid => "纯色",
            PreviewBg::Grid => "网格",
        }
    }

    /// The other background.
    pub fn other(self) -> (r: Self)
        ensures
            r != self,
    {
        match self {
            PreviewBg::Solid => PreviewBg::Grid,
            PreviewBg::Grid => PreviewBg::Solid,
        }
    }
}

/// A background is read back from its setting.
pub proof fn backgrounds_are_read_back(bg: PreviewBg)
    ensures
        PreviewBg::of(Some(bg.setting())) == bg,
{
    reveal_strlit("solid");
    reveal_strlit("grid");
    assert("solid"@.len() != "grid"@.len());
}

/// What can be shown or not.
#[derive(Clone, Copy, PartialEq, Eq, Debug, Structural)]
pub enum PaneToggle {
    Tree,
    Editor,
    Preview,
    Toolbar,
    Statusbar,
}

/// The endpoint, model and key that the user has set for the language model.
#[derive(Clone, Debug, PartialEq, Eq)]
pub struct AiConfig {
    pub base_url: Option<String>,
    pub model: Option<String>,
    pub key: Option<String>,
}

/// The host of an endpoint: what is between `//` and the next `/`.
pub open spec fn host_of(url: Seq<char>) -> Seq<char> {
    let at = search(url, "//"@, 0);
    if at < 0 {
        pieces(url, '/')[0]
    } else {
        pieces(url.skip(at + 2), '/')[0]
    }
}

fn host(url: &str) -> (r: String)
    ensures
        r@ == host_of(url@),
{
    let v = text::chars_of(url);
    let mark = text::chars_of("//");
    proof {
        reveal_strlit("//");
        text::lemma_search(v@, "//"@, 0);
    }
    let n: usize = v.len();
    let rest = match text::find(&v, &mark, 0) {
        Some(at) => {
            assert(v@.subrange(at + 2, n as int) =~= v@.skip(at + 2));
            text::text_of(&v, at + 2, n)
        },
        None => url.to_owned(),
    };
    let parts = text::split(rest.as_str(), '/');
    proof {
        text::lemma_pieces_nonempty(rest@, '/');
        assert(views(parts@)[0] == parts@[0]@);
    }
    parts[0].clone()
}

/// What is said of the key: whether there is one, or that none is needed.
pub open spec fn key_state(has_key: bool, endpoint: Seq<char>) -> Seq<char> {
    if has_key {
        "Key 已配"@
    } else if is_local(endpoint) {
        "本地端点，无需 Key"@
    } else {
        "⚠ 没配 Key"@
    }
}

/// What is in use: the host, the model, and whether there is a key.
pub open spec fn summary_of(endpoint: Seq<char>, model: Seq<char>, has_key: bool) -> Seq<char> {
    host_of(endpoint) + " · "@ + model + " · "@ + key_state(has_key, endpoint)
}

/// What a field of the form comes to: nothing where it is empty or says what holds
/// anyway.
pub open spec fn field(value: Seq<char>, usual: Option<Seq<char>>) -> Option<Seq<char>> {
    let t = trimmed(value);
    if t.len() == 0 || usual == Some(t) {
        None
    } else {
        Some(t)
    }
}

fn read_field(value: &str, usual: Option<&str>) -> (r: Option<String>)
    ensures
        optional(r) == field(value@, said(usual)),
{
    let t = text::trim(value);
    if t.as_str().is_empty() {
        return None;
    }
    if let Some(u) = usual {
        if text::same(u, t.as_str()) {
            return None;
        }
    }
    Some(t)
}

impl AiConfig {
    /// What the settings say.
    pub fn from_settings(settings: &Settings) -> (r: Self)
        ensures
            optional(r.base_url) == settings@.ai_base_url,
            optional(r.model) == settings@.ai_model,
            optional(r.key) == settings@.ai_api_key,
    {
        AiConfig {
            base_url: settings.ai_base_url.clone(),
            model: settings.ai_model.clone(),
            key: settings.ai_api_key.clone(),
        }
    }

    /// What is in use: the host, the model, and whether there is a key. `url_env` and
    /// `model_env` are what the environment says.
    pub fn summary(&self, url_env: Option<&str>, model_env: Option<&str>, has_key: bool) -> (r:
        String)
        ensures
            r@ == summary_of(
                resolved(said(url_env), optional(self.base_url), AI_BASE_URL_DEFAULT@),
                resolved(said(model_env), optional(self.model), AI_MODEL_DEFAULT@),
                has_key,
            ),
    {
        let url = text::borrowed(&self.base_url);
        let wanted = text::borrowed(&self.model);
        let endpoint = ai::resolve_base_url(url_env, url);
        let model = ai::resolve_model(model_env, wanted);
        let name = host(endpoint.as_str());
        let key = if has_key {
            "Key 已配"
        } else if ai::is_local_endpoint(endpoint.as_str()) {
            "本地端点，无需 Key"
        } else {
            "⚠ 没配 Key"
        };
        let mut out = text::three(name.as_str(), " · ", model.as_str());
        out.append(" · ");
        out.append(key);
        out
    }

    /// What the user has filled in. What is empty, and what would hold anyway, is left
    /// unset.
    pub fn from_form(
        base_url: &str,
        model: &str,
        key: &str,
        url_env: Option<&str>,
        model_env: Option<&str>,
    ) -> (r: Self)
        ensures
            optional(r.base_url) == field(
                base_url@,
                Some(resolved(said(url_env), None, AI_BASE_URL_DEFAULT@)),
            ),
            optional(r.model) == field(model@, Some(resolved(said(model_env), None, AI_MODEL_DEFAULT@))),
            optional(r.key) == field(key@, None),
    {
        let usual_url = ai::resolve_base_url(url_env, None);
        let usual_model = ai::resolve_model(model_env, None);
        AiConfig {
            base_url: read_field(base_url, Some(usual_url.as_str())),
            model: read_field(model, Some(usual_model.as_str())),
            key: read_field(key, None),
        }
    }
}

/// What the user has switched on.
pub struct Options {
    pub theme: Option<String>,
    pub preview_bg: PreviewBg,
    pub follow_cursor: bool,
    pub folding: bool,
    pub show_metrics: bool,
    pub autosave: bool,
    pub show_tree: bool,
    pub show_editor: bool,
    pub show_preview: bool,
    pub show_toolbar: bool,
    pub show_statusbar: bool,
    pub rec_mic: bool,
    pub rec_cam: bool,
    pub recent_dirs: Vec<String>,
    pub ai: AiConfig,
}

/// What the user has switched on, its texts as sequences.
pub struct Switches {
    pub theme: Option<Seq<char>>,
    pub preview_bg: PreviewBg,
    pub follow_cursor: bool,
    pub folding: bool,
    pub show_metrics: bool,
    pub autosave: bool,
    pub show_tree: bool,
    pub show_editor: bool,
    pub show_preview: bool,
    pub show_toolbar: bool,
    pub show_statusbar: bool,
    pub rec_mic: bool,
    pub rec_cam: bool,
    pub recent_dirs: Seq<Seq<char>>,
    pub ai_base_url: Option<Seq<char>>,
    pub ai_model: Option<Seq<char>>,
    pub ai_key: Option<Seq<char>>,
}

impl View for Options {
    type V = Switches;

    open spec fn view(&self) -> Switches {
        Switches {
            theme: optional(self.theme),
            preview_bg: self.preview_bg,
            follow_cursor: self.follow_cursor,
            folding: self.folding,
            show_metrics: self.show_metrics,
            autosave: self.autosave,
            show_tree: self.show_tree,
            show_editor: self.show_editor,
            show_preview: self.show_preview,
            show_toolbar: self.show_toolbar,
            show_statusbar: self.show_statusbar,
            rec_mic: self.rec_mic,
            rec_cam: self.rec_cam,
            recent_dirs: views(self.recent_dirs@),
            ai_base_url: optional(self.ai.base_url),
            ai_model: optional(self.ai.model),
            ai_key: optional(self.ai.key),
        }
    }
}

/// A switch as it is set, or else as it is by default.
pub open spec fn set_or(value: Option<bool>, default: bool) -> bool {
    match value {
        Some(v) => v,
        None => default,
    }
}

fn or(value: Option<bool>, default: bool) -> (r: bool)
    ensures
        r == set_or(value, default),
{
    match value {
        Some(v) => v,
        None => default,
    }
}

/// What settings switch on. What they do not say is on, but for following the cursor
/// and the figures in the status bar.
pub open spec fn switched(p: Prefs) -> Switches {
    Switches {
        theme: p.theme,
        preview_bg: PreviewBg::of(p.preview_bg),
        follow_cursor: set_or(p.follow_cursor, false),
        folding: set_or(p.folding, true),
        show_metrics: set_or(p.show_metrics, false),
        autosave: set_or(p.autosave, true),
        show_tree: set_or(p.show_tree, true),
        show_editor: set_or(p.show_editor, true),
        show_preview: set_or(p.show_preview, true),
        show_toolbar: set_or(p.show_toolbar, true),
        show_statusbar: set_or(p.show_statusbar, true),
        rec_mic: set_or(p.record_mic, true),
        rec_cam: set_or(p.record_cam, true),
        recent_dirs: p.recent_dirs,
        ai_base_url: p.ai_base_url,
        ai_model: p.ai_model,
        ai_key: p.ai_api_key,
    }
}

/// The settings that keep what is switched on, beside the window, the file and the zoom.
/// A window that is not known keeps the place that was set.
pub open spec fn kept(
    s: Switches,
    before: Prefs,
    window: Option<WindowBox>,
    file: Option<Seq<char>>,
    zoom: Seq<char>,
) -> Prefs {
    Prefs {
        window: if window is Some {
            window
        } else {
            before.window
        },
        file,
        zoom: Some(zoom),
        ai_base_url: s.ai_base_url,
        ai_model: s.ai_model,
        ai_api_key: s.ai_key,
        theme: s.theme,
        preview_bg: Some(s.preview_bg.setting()),
        follow_cursor: Some(s.follow_cursor),
        folding: Some(s.folding),
        show_metrics: Some(s.show_metrics),
        autosave: Some(s.autosave),
        show_tree: Some(s.show_tree),
        show_editor: Some(s.show_editor),
        show_preview: Some(s.show_preview),
        show_toolbar: Some(s.show_toolbar),
        show_statusbar: Some(s.show_statusbar),
        record_mic: Some(s.rec_mic),
        record_cam: Some(s.rec_cam),
        recent_dirs: s.recent_dirs,
    }
}

fn copied(v: &Vec<String>) -> (r: Vec<String>)
    ensures
        views(r@) == views(v@),
{
    let mut out: Vec<String> = Vec::new();
    let mut i: usize = 0;
    while i < v.len()
        invariant
            i <= v@.len(),
            out@.len() == i,
            forall|j: int| 0 <= j < i ==> (#[trigger] out@[j])@ == v@[j]@,
        decreases v@.len() - i,
    {
        out.push(v[i].clone());
        i += 1;
    }
    assert(views(out@) =~= views(v@));
    out
}

impl Options {
    /// What settings switch on.
    pub fn from_settings(settings: &Settings) -> (r: Self)
        ensures
            r@ == switched(settings@),
    {
        Options {
            theme: settings.theme.clone(),
            preview_bg: PreviewBg::from_setting(text::borrowed(&settings.preview_bg)),
            follow_cursor: or(settings.follow_cursor, false),
            folding: or(settings.folding, true),
            show_metrics: or(settings.show_metrics, false),
            autosave: or(settings.autosave, true),
            show_tree: or(settings.show_tree, true),
            show_editor: or(settings.show_editor, true),
            show_preview: or(settings.show_preview, true),
            show_toolbar: or(settings.show_toolbar, true),
            show_statusbar: or(settings.show_statusbar, true),
            rec_mic: or(settings.record_mic, true),
            rec_cam: or(settings.record_cam, true),
            recent_dirs: copied(&settings.recent_dirs),
            ai: AiConfig::from_settings(settings),
        }
    }

    /// The settings that keep what is switched on.
    pub fn desired_settings(
        &self,
        before: &Settings,
        window: Option<WindowBox>,
        file: Option<String>,
        zoom: String,
    ) -> (r: Settings)
        ensures
            r@ == kept(self@, before@, window, optional(file), zoom@),
    {
        Settings {
            window: if window.is_some() {
                window
            } else {
                before.window
            },
            file,
            zoom: Some(zoom),
            ai_base_url: self.ai.base_url.clone(),
            ai_model: self.ai.model.clone(),
            ai_api_key: self.ai.key.clone(),
            theme: self.theme.clone(),
            preview_bg: Some(self.preview_bg.as_setting().to_owned()),
            follow_cursor: Some(self.follow_cursor),
            folding: Some(self.folding),
            show_metrics: Some(self.show_metrics),
            autosave: Some(self.autosave),
            show_tree: Some(self.show_tree),
            show_editor: Some(self.show_editor),
            show_preview: Some(self.show_preview),
            show_toolbar: Some(self.show_toolbar),
            show_statusbar: Some(self.show_statusbar),
            record_mic: Some(self.rec_mic),
            record_cam: Some(self.rec_cam),
            recent_dirs: copied(&self.recent_dirs),
        }
    }

    /// Shows or hides something.
    pub fn set_pane_visible(&mut self, which: PaneToggle, on: bool)
        ensures
            final(self)@ == match which {
                PaneToggle::Tree => Switches { show_tree: on, ..old(self)@ },
                PaneToggle::Editor => Switches { show_editor: on, ..old(self)@ },
                PaneToggle::Preview => Switches { show_preview: on, ..old(self)@ },
                PaneToggle::Toolbar => Switches { show_toolbar: on, ..old(self)@ },
                PaneToggle::Statusbar => Switches { show_statusbar: on, ..old(self)@ },
            },
    {
        match which {
            PaneToggle::Tree => {
                self.show_tree = on;
            },
            PaneToggle::Editor => {
                self.show_editor = on;
            },
            PaneToggle::Preview => {
                self.show_preview = on;
            },
            PaneToggle::Toolbar => {
                self.show_toolbar = on;
            },
            PaneToggle::Statusbar => {
                self.show_statusbar = on;
            },
        }
    }

    /// Switches the figures in the status bar, and says so.
    pub fn set_show_metrics(&mut self, on: bool) -> (r: &'static str)
        ensures
            final(self)@ == (Switches { show_metrics: on, ..old(self)@ }),
            r@ == if on {
                "状态栏：显示性能指标"@
            } else {
                "状态栏：精简模式"@
            },
    {
        self.show_metrics = on;
        if on {
            "状态栏：显示性能指标"
        } else {
            "状态栏：精简模式"
        }
    }

    /// Switches folding, and says so.
    pub fn set_folding(&mut self, on: bool) -> (r: &'static str)
        ensures
            final(self)@ == (Switches { folding: on, ..old(self)@ }),
            r@ == if on {
                "代码折叠：开（鼠标移到行号列，箭头出现；点它折叠）"@
            } else {
                "代码折叠：关"@
            },
    {
        self.folding = on;
        if on {
            "代码折叠：开（鼠标移到行号列，箭头出现；点它折叠）"
        } else {
            "代码折叠：关"
        }
    }

    /// Sets the background of the preview, and says so.
    pub fn set_preview_bg(&mut self, style: PreviewBg) -> (r: String)
        ensures
            final(self)@ == (Switches { preview_bg: style, ..old(self)@ }),
            r@ == "预览背景："@ + style.name(),
    {
        self.preview_bg = style;
        text::both("预览背景：", style.label())
    }

    /// Switches following the cursor, and says so.
    pub fn set_follow_cursor(&mut self, on: bool) -> (r: &'static str)
        ensures
            final(self)@ == (Switches { follow_cursor: on, ..old(self)@ }),
            r@ == if on {
                "跟随光标：开（光标停下 → 预览跟着滚；手动滚动会暂停 3 秒）"@
            } else {
                "跟随光标：关"@
            },
    {
        self.follow_cursor = on;
        if on {
            "跟随光标：开（光标停下 → 预览跟着滚；手动滚动会暂停 3 秒）"
        } else {
            "跟随光标：关"
        }
    }
}

/// What is switched on is found again from the settings that keep it.
pub proof fn options_are_kept(
    s: Switches,
    before: Prefs,
    window: Option<WindowBox>,
    file: Option<Seq<char>>,
    zoom: Seq<char>,
)
    ensures
        switched(kept(s, before, window, file, zoom)) == s,
{
    backgrounds_are_read_back(s.preview_bg);
}

/// Without settings everything is shown, and nothing is followed or measured.
pub proof fn everything_is_shown_at_first()
    ensures
        ({
            let s = switched(crate::settings::no_prefs());
            &&& s.show_tree && s.show_editor && s.show_preview && s.show_toolbar && s.show_statusbar
            &&& s.autosave && s.folding && s.rec_mic && s.rec_cam
            &&& !s.follow_cursor && !s.show_metrics
            &&& s.preview_bg == PreviewBg::Solid
        }),
{
}

/// Each setting switches what it is called after.
pub proof fn settings_switch_what_they_name(p: Prefs)
    ensures
        p.follow_cursor matches Some(on) ==> switched(p).follow_cursor == on,
        p.folding matches Some(on) ==> switched(p).folding == on,
        p.show_metrics matches Some(on) ==> switched(p).show_metrics == on,
        p.autosave matches Some(on) ==> switched(p).autosave == on,
        p.show_tree matches Some(on) ==> switched(p).show_tree == on,
        p.show_editor matches Some(on) ==> switched(p).show_editor == on,
        p.show_preview matches Some(on) ==> switched(p).show_preview == on,
        p.show_toolbar matches Some(on) ==> switched(p).show_toolbar == on,
        p.show_statusbar matches Some(on) ==> switched(p).show_statusbar == on,
        p.record_mic matches Some(on) ==> switched(p).rec_mic == on,
        p.record_cam matches Some(on) ==> switched(p).rec_cam == on,
        switched(p).theme == p.theme,
        switched(p).recent_dirs == p.recent_dirs,
        switched(p).ai_base_url == p.ai_base_url,
        switched(p).ai_model == p.ai_model,
        switched(p).ai_key == p.ai_api_key,
{
}

/// Each switch is kept under its own name, and the file, the zoom and the window are kept as
/// they are; a window that is not known stays as it was.
pub proof fn switches_are_kept_under_their_names(
    s: Switches,
    p: Prefs,
    window: Option<WindowBox>,
    file: Option<Seq<char>>,
    zoom: Seq<char>,
)
    ensures
        kept(s, p, window, file, zoom).follow_cursor == Some(s.follow_cursor),
        kept(s, p, window, file, zoom).folding == Some(s.folding),
        kept(s, p, window, file, zoom).show_metrics == Some(s.show_metrics),
        kept(s, p, window, file, zoom).autosave == Some(s.autosave),
        kept(s, p, window, file, zoom).show_tree == Some(s.show_tree),
        kept(s, p, window, file, zoom).show_editor == Some(s.show_editor),
        kept(s, p, window, file, zoom).show_preview == Some(s.show_preview),
        kept(s, p, window, file, zoom).show_toolbar == Some(s.show_toolbar),
        kept(s, p, window, file, zoom).show_statusbar == Some(s.show_statusbar),
        kept(s, p, window, file, zoom).record_mic == Some(s.rec_mic),
        kept(s, p, window, file, zoom).record_cam == Some(s.rec_cam),
        kept(s, p, window, file, zoom).theme == s.theme,
        kept(s, p, window, file, zoom).recent_dirs == s.recent_dirs,
        kept(s, p, window, file, zoom).ai_base_url == s.ai_base_url,
        kept(s, p, window, file, zoom).ai_model == s.ai_model,
        kept(s, p, window, file, zoom).ai_api_key == s.ai_key,
        kept(s, p, window, file, zoom).file == file,
        kept(s, p, window, file, zoom).zoom == Some(zoom),
        window is Some ==> kept(s, p, window, file, zoom).window == window,
        window is None ==> kept(s, p, window, file, zoom).window == p.window,
{
}

/// A field of the form that is blank or says what holds anyway sets nothing; any other is
/// taken over, whitespace around it aside.
pub proof fn fields_are_taken_over(value: Seq<char>, usual: Seq<char>)
    ensures
        text::all_space(value) ==> field(value, Some(usual)) is None && field(value, None) is None,
        trimmed(value) == usual ==> field(value, Some(usual)) is None,
        !text::all_space(value) && trimmed(value) != usual ==> field(value, Some(usual)) == Some(
            trimmed(value),
        ),
        !text::all_space(value) ==> field(value, None) == Some(trimmed(value)),
{
    ai::lemma_blank_is_all_space(value);
}

} // verus!
