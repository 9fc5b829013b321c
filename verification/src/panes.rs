//! The parts of the window: which are there, and what they hold.

use vstd::prelude::*;
use vstd::string::*;

use crate::ai_edit::AiStage;
use crate::decimal;
use crate::decimal::decimal;
use crate::diagnostics::{faults, Diagnostic, Fault};
use crate::labels;
use crate::labels::shortened;
use crate::markup::{button_groups, Markup};
use crate::options::{Options, Switches};
use crate::text;

verus! {

/// A part of the window, from the back to the front.
#[derive(Clone, Copy, PartialEq, Eq, Debug, Structural)]
pub enum Layer {
    Menu,
    Toolbar,
    Main,
    Shell,
    Statusbar,
    Ai,
    AiSettings,
    FolderPicker,
    ClosePrompt,
}

/// What lies over the window.
#[derive(Clone, Copy, PartialEq, Eq, Debug, Structural)]
pub struct Overlays {
    pub shell: bool,
    pub ai: AiStage,
    pub ai_settings: bool,
    pub folder_picker: bool,
    pub close_prompt: bool,
}

/// A layer, where it is there.
#[verifier::opaque]
pub open spec fn layer_if(there: bool, layer: Layer) -> Seq<Layer> {
    if there {
        seq![layer]
    } else {
        Seq::empty()
    }
}

/// The parts of the window, from the back to the front.
pub open spec fn layers_of(s: Switches, o: Overlays) -> Seq<Layer> {
    seq![Layer::Menu] + layer_if(s.show_toolbar, Layer::Toolbar) + seq![Layer::Main] + layer_if(
        o.shell,
        Layer::Shell,
    ) + layer_if(s.show_statusbar, Layer::Statusbar) + layer_if(
        o.ai != AiStage::Closed,
        Layer::Ai,
    ) + layer_if(o.ai_settings, Layer::AiSettings) + layer_if(
        o.folder_picker,
        Layer::FolderPicker,
    ) + layer_if(o.close_prompt, Layer::ClosePrompt)
}

fn add_layer(to: &mut Vec<Layer>, there: bool, layer: Layer)
    ensures
        final(to)@ == old(to)@ + layer_if(there, layer),
{
    reveal(layer_if);
    let ghost before = to@;
    if there {
        to.push(layer);
    }
    assert(to@ =~= before + layer_if(there, layer));
}

/// The parts of the window, from the back to the front.
pub fn layers(options: &Options, o: Overlays) -> (r: Vec<Layer>)
    ensures
        r@ == layers_of(options@, o),
{
    let mut out: Vec<Layer> = vec![Layer::Menu];
    assert(out@ =~= seq![Layer::Menu]);
    add_layer(&mut out, options.show_toolbar, Layer::Toolbar);
    let ghost before = out@;
    out.push(Layer::Main);
    assert(out@ =~= before + seq![Layer::Main]);
    add_layer(&mut out, o.shell, Layer::Shell);
    add_layer(&mut out, options.show_statusbar, Layer::Statusbar);
    add_layer(&mut out, !(o.ai == AiStage::Closed), Layer::Ai);
    add_layer(&mut out, o.ai_settings, Layer::AiSettings);
    add_layer(&mut out, o.folder_picker, Layer::FolderPicker);
    add_layer(&mut out, o.close_prompt, Layer::ClosePrompt);
    out
}

/// The menu is always there, so that what is hidden can be shown again; and the question
/// about unsaved changes lies over everything.
pub proof fn the_menu_stays_and_the_question_is_in_front(s: Switches, o: Overlays)
    ensures
        layers_of(s, o).len() > 0,
        layers_of(s, o)[0] == Layer::Menu,
        o.close_prompt ==> layers_of(s, o).last() == Layer::ClosePrompt,
{
    if o.close_prompt {
        assert(layer_if(true, Layer::ClosePrompt) == seq![Layer::ClosePrompt]) by {
            reveal(layer_if);
        }
    }
}

/// A panel of the main part.
#[derive(Clone, Copy, PartialEq, Eq, Debug, Structural)]
pub enum Panel {
    Tree,
    Editor,
    Preview,
}

/// The panels of the main part, from left to right. Where none is left the user is told
/// how to get them back.
pub open spec fn panels_of(s: Switches) -> Seq<Panel> {
    (if s.show_tree {
        seq![Panel::Tree]
    } else {
        Seq::empty()
    }) + (if s.show_editor {
        seq![Panel::Editor]
    } else {
        Seq::empty()
    }) + (if s.show_preview {
        seq![Panel::Preview]
    } else {
        Seq::empty()
    })
}

/// What is said where no panel is left.
pub const NO_PANELS: &'static str = "三块面板都隐藏了 —— 从「视图」菜单里把它们打开";

/// The panels of the main part, from left to right.
pub fn panels(o: &Options) -> (r: Vec<Panel>)
    ensures
        r@ == panels_of(o@),
        r@.len() == 0 <==> !o@.show_tree && !o@.show_editor && !o@.show_preview,
{
    let mut out: Vec<Panel> = Vec::new();
    if o.show_tree {
        out.push(Panel::Tree);
    }
    if o.show_editor {
        out.push(Panel::Editor);
    }
    if o.show_preview {
        out.push(Panel::Preview);
    }
    assert(out@ =~= panels_of(o@));
    out
}

/// A place in the toolbar.
pub enum ToolbarSlot {
    Divider,
    /// The list of colours.
    Colors,
    Button(Markup),
}

/// What a group of buttons puts into the toolbar: the sixth group is the list of
/// colours, and the seventh, whose entries have a menu of their own, is empty.
pub open spec fn group_slots(groups: Seq<Seq<Markup>>, k: int) -> Seq<ToolbarSlot> {
    if k == 5 {
        seq![ToolbarSlot::Colors]
    } else if k == 6 {
        Seq::empty()
    } else {
        groups[k].map_values(|m: Markup| ToolbarSlot::Button(m))
    }
}

/// The first `n` groups, a divider between any two.
pub open spec fn toolbar_slots(groups: Seq<Seq<Markup>>, n: nat) -> Seq<ToolbarSlot>
    decreases n,
{
    if n == 0 {
        Seq::empty()
    } else {
        let k = n - 1;
        toolbar_slots(groups, k as nat) + (if k > 0 {
            seq![ToolbarSlot::Divider]
        } else {
            Seq::empty()
        }) + group_slots(groups, k)
    }
}

/// The toolbar: the groups of buttons with dividers between them.
pub fn toolbar() -> (r: Vec<ToolbarSlot>)
    ensures
        r@ == toolbar_slots(button_groups(), button_groups().len()),
{
    let groups = Markup::groups();
    let ghost g = button_groups();
    let mut out: Vec<ToolbarSlot> = Vec::new();
    let mut k: usize = 0;
    assert(groups@.len() == g.len());
    while k < groups.len()
        invariant
            k <= groups@.len(),
            groups@.len() == g.len(),
            groups@.map_values(|x: Vec<Markup>| x@) == g,
            out@ == toolbar_slots(g, k as nat),
        decreases groups@.len() - k,
    {
        if k > 0 {
            out.push(ToolbarSlot::Divider);
        }
        let ghost head = out@;
        let ghost wanted = group_slots(g, k as int);
        if k == 5 {
            out.push(ToolbarSlot::Colors);
        } else if k != 6 {
            let group = &groups[k];
            assert(g[k as int] == group@);
            let mut i: usize = 0;
            assert(out@ =~= head + wanted.take(0));
            while i < group.len()
                invariant
                    i <= group@.len(),
                    wanted == group@.map_values(|m: Markup| ToolbarSlot::Button(m)),
                    out@ == head + wanted.take(i as int),
                decreases group@.len() - i,
            {
                out.push(ToolbarSlot::Button(group[i]));
                assert(out@ =~= head + wanted.take(i + 1));
                i += 1;
            }
            assert(wanted.take(i as int) =~= wanted);
        }
        assert(out@ =~= head + wanted);
        k += 1;
    }
    out
}

/// What the panel of the tree holds.
pub enum TreeBody {
    /// Nothing was read yet; the text of the button that reads the directory.
    Unread { button: String },
    /// The directory is being read.
    Reading,
    /// There is nothing in it; what it is called.
    Empty { root: String },
    Tree,
}

/// What the panel of the tree holds. `shown` is the directory that was read, `root` the
/// one that is worked in.
pub fn tree_body(shown: Option<&str>, root: &str, reading: bool, entries: usize) -> (r: TreeBody)
    ensures
        match shown {
            None => r matches TreeBody::Unread { button } && button@ == "扫描 "@ + shortened(root@),
            Some(dir) => if reading {
                r is Reading
            } else if entries == 0 {
                r matches TreeBody::Empty { root: name } && name@ == shortened(dir@)
            } else {
                r is Tree
            },
        },
{
    match shown {
        None => {
            let name = labels::short_path(root);
            TreeBody::Unread { button: text::both("扫描 ", name.as_str()) }
        },
        Some(dir) => {
            if reading {
                TreeBody::Reading
            } else if entries == 0 {
                TreeBody::Empty { root: labels::short_path(dir) }
            } else {
                TreeBody::Tree
            }
        },
    }
}

/// What a row of the tree leads to when it is clicked: a directory folds by itself.
pub fn opens_file(is_dir: bool) -> (r: bool)
    ensures
        r == !is_dir,
{
    !is_dir
}

/// What the right panel is for.
#[derive(Clone, Copy, PartialEq, Eq, Debug, Structural)]
pub enum RightPane {
    Preview,
    Markdown,
    Image,
}

/// What the right panel shows.
pub enum RightBody {
    Preview,
    Markdown,
    Image,
    /// There is nothing to show; what is said instead.
    Note(&'static str),
}

/// What the right panel shows.
pub fn right_body(pane: RightPane, markdown_empty: bool, has_image: bool) -> (r: RightBody)
    ensures
        match pane {
            RightPane::Preview => r is Preview,
            RightPane::Markdown => if markdown_empty {
                r matches RightBody::Note(t) && t@ == "在左边目录树里点一个 .md 文件"@
            } else {
                r is Markdown
            },
            RightPane::Image => if has_image {
                r is Image
            } else {
                r matches RightBody::Note(t) && t@
                    == "在左边目录树里点一张图片（png/jpg/webp/gif/bmp/svg）"@
            },
        },
{
    match pane {
        RightPane::Preview => RightBody::Preview,
        RightPane::Markdown => if markdown_empty {
            RightBody::Note("在左边目录树里点一个 .md 文件")
        } else {
            RightBody::Markdown
        },
        RightPane::Image => if has_image {
            RightBody::Image
        } else {
            RightBody::Note("在左边目录树里点一张图片（png/jpg/webp/gif/bmp/svg）")
        },
    }
}

/// What the preview shows.
#[derive(Clone, Copy, PartialEq, Eq, Debug, Structural)]
pub enum PreviewBody {
    /// Nothing was set yet.
    Waiting,
    /// Pages, and errors below them.
    PagesAndErrors,
    Pages,
}

/// What the preview shows: the last pages stay while there are errors.
pub fn preview_body(has_document: bool, has_errors: bool) -> (r: PreviewBody)
    ensures
        r == if !has_document {
            PreviewBody::Waiting
        } else if has_errors {
            PreviewBody::PagesAndErrors
        } else {
            PreviewBody::Pages
        },
{
    if !has_document {
        PreviewBody::Waiting
    } else if has_errors {
        PreviewBody::PagesAndErrors
    } else {
        PreviewBody::Pages
    }
}

/// What is said of a page that has no picture yet.
pub fn page_label(page: usize) -> (r: String)
    requires
        page < usize::MAX,
    ensures
        r@ == "第 "@ + decimal((page + 1) as nat) + " 页"@,
{
    let number = decimal::show_size(page + 1);
    text::three("第 ", number.as_str(), " 页")
}

/// How many errors the preview lists.
pub const MAX_ERROR_ROWS: usize = 6;

/// A row in the list of errors.
pub struct ErrorRow {
    /// Where it is, or how grave where that is not known.
    pub place: String,
    pub message: String,
    /// The line that a click leads to.
    pub line: Option<usize>,
}

/// How a fault is listed.
pub open spec fn is_row(r: ErrorRow, f: Fault, error_word: Seq<char>, warning_word: Seq<char>) -> bool {
    &&& r.message@ == f.message
    &&& match f.line_col {
        Some(p) => r.line == Some(p.line) && r.place@ == "第 "@ + decimal((p.line + 1) as nat)
            + " 行"@,
        None => r.line is None && r.place@ == if f.is_error {
            error_word
        } else {
            warning_word
        },
    }
}

/// The rows of the list of errors: the first diagnostics. `error_word` and
/// `warning_word` say how grave one is whose place is not known.
pub fn error_rows(diags: &Vec<Diagnostic>, error_word: &str, warning_word: &str) -> (r: Vec<ErrorRow>)
    requires
        forall|i: int|
            0 <= i < diags@.len() ==> ((#[trigger] diags@[i]).line_col matches Some(p) ==> p.line
                < usize::MAX),
    ensures
        r@.len() == if diags@.len() < MAX_ERROR_ROWS {
            diags@.len()
        } else {
            MAX_ERROR_ROWS as nat
        },
        forall|i: int|
            0 <= i < r@.len() ==> is_row(
                #[trigger] r@[i],
                faults(diags@)[i],
                error_word@,
                warning_word@,
            ),
{
    let mut out: Vec<ErrorRow> = Vec::new();
    while out.len() < diags.len() && out.len() < MAX_ERROR_ROWS
        invariant
            out@.len() <= diags@.len(),
            out@.len() <= MAX_ERROR_ROWS,
            forall|i: int|
                0 <= i < diags@.len() ==> ((#[trigger] diags@[i]).line_col matches Some(p)
                    ==> p.line < usize::MAX),
            forall|i: int|
                0 <= i < out@.len() ==> is_row(
                    #[trigger] out@[i],
                    faults(diags@)[i],
                    error_word@,
                    warning_word@,
                ),
        decreases diags@.len() - out@.len(),
    {
        let d = &diags[out.len()];
        assert(faults(diags@)[out@.len() as int] == d@);
        let row = match d.line_col {
            Some(p) => {
                let number = decimal::show_size(p.line + 1);
                ErrorRow {
                    place: text::three("第 ", number.as_str(), " 行"),
                    message: d.message.clone(),
                    line: Some(p.line),
                }
            },
            None => ErrorRow {
                place: if d.is_error {
                    error_word.to_owned()
                } else {
                    warning_word.to_owned()
                },
                message: d.message.clone(),
                line: None,
            },
        };
        out.push(row);
    }
    out
}

/// What is said when a line was jumped to.
pub fn jumped_message(line: usize) -> (r: String)
    requires
        line < usize::MAX,
    ensures
        r@ == "已跳到第 "@ + decimal((line + 1) as nat) + " 行"@,
{
    let number = decimal::show_size(line + 1);
    text::three("已跳到第 ", number.as_str(), " 行")
}

proof fn lemma_layers_add(a: Seq<Layer>, there: bool, layer: Layer, x: Layer)
    ensures
        (a + layer_if(there, layer)).contains(x) <==> a.contains(x) || (there && layer == x),
{
    reveal(layer_if);
    let b = layer_if(there, layer);
    let all = a + b;
    if a.contains(x) {
        let k = choose|k: int| 0 <= k < a.len() && a[k] == x;
        assert(all[k] == x);
    }
    if there && layer == x {
        assert(all[a.len() as int] == x);
    }
    if all.contains(x) {
        let k = choose|k: int| 0 <= k < all.len() && all[k] == x;
        if k < a.len() {
            assert(a[k] == x);
        }
    }
}

/// Each part of the window is there if and only if it is switched on or opened.
pub proof fn parts_are_there_when_they_should_be(s: Switches, o: Overlays, x: Layer)
    ensures
        layers_of(s, o).contains(x) <==> match x {
            Layer::Menu => true,
            Layer::Toolbar => s.show_toolbar,
            Layer::Main => true,
            Layer::Shell => o.shell,
            Layer::Statusbar => s.show_statusbar,
            Layer::Ai => o.ai != AiStage::Closed,
            Layer::AiSettings => o.ai_settings,
            Layer::FolderPicker => o.folder_picker,
            Layer::ClosePrompt => o.close_prompt,
        },
{
    let a = seq![Layer::Menu];
    assert(a.contains(x) <==> x == Layer::Menu) by {
        assert(a[0] == Layer::Menu);
    }
    lemma_layers_add(a, s.show_toolbar, Layer::Toolbar, x);
    let b = a + layer_if(s.show_toolbar, Layer::Toolbar);
    assert(layer_if(true, Layer::Main) == seq![Layer::Main]) by {
        reveal(layer_if);
    }
    lemma_layers_add(b, true, Layer::Main, x);
    let c = b + seq![Layer::Main];
    lemma_layers_add(c, o.shell, Layer::Shell, x);
    let d = c + layer_if(o.shell, Layer::Shell);
    lemma_layers_add(d, s.show_statusbar, Layer::Statusbar, x);
    let e = d + layer_if(s.show_statusbar, Layer::Statusbar);
    lemma_layers_add(e, o.ai != AiStage::Closed, Layer::Ai, x);
    let f = e + layer_if(o.ai != AiStage::Closed, Layer::Ai);
    lemma_layers_add(f, o.ai_settings, Layer::AiSettings, x);
    let g = f + layer_if(o.ai_settings, Layer::AiSettings);
    lemma_layers_add(g, o.folder_picker, Layer::FolderPicker, x);
    let h = g + layer_if(o.folder_picker, Layer::FolderPicker);
    lemma_layers_add(h, o.close_prompt, Layer::ClosePrompt, x);
}

/// Each panel is there if and only if it is switched on: the tree on the left, the preview on
/// the right.
pub proof fn panels_are_there_when_they_should_be(s: Switches)
    ensures
        s.show_tree && s.show_editor && s.show_preview ==> panels_of(s) == seq![
            Panel::Tree,
            Panel::Editor,
            Panel::Preview,
        ],
        s.show_tree ==> panels_of(s).len() > 0 && panels_of(s)[0] == Panel::Tree,
        s.show_preview ==> panels_of(s).len() > 0 && panels_of(s).last() == Panel::Preview,
        s.show_editor && !s.show_tree ==> panels_of(s)[0] == Panel::Editor,
        s.show_editor && !s.show_preview ==> panels_of(s).last() == Panel::Editor,
        panels_of(s).len() == (if s.show_tree {
            1int
        } else {
            0
        }) + (if s.show_editor {
            1int
        } else {
            0
        }) + (if s.show_preview {
            1int
        } else {
            0
        }),
{
    if s.show_tree && s.show_editor && s.show_preview {
        assert(panels_of(s) =~= seq![Panel::Tree, Panel::Editor, Panel::Preview]);
    }
}

} // verus!
