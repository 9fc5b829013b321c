//! What the window shows around the text: menus, bars, panes and overlays.

use typst_live::ai_edit::{AiEdit, AiStage};
use typst_live::ai_scope::{AiScope, ScopeChoice};
use typst_live::diagnostics::{Diagnostic, LineCol};
use typst_live::frame::{
    focus_target, steps, submit, toggle_shell, wheel, window_moved, Focus, Pending, Step, Submit,
    Wheel,
};
use typst_live::markdown_view::MarkdownView;
use typst_live::menu::{ai_menu, file_menu, theme_menu, view_menu, Command, MenuRow};
use typst_live::options::{AiConfig, Options, PaneToggle, PreviewBg};
use typst_live::overlays::{
    ai_body, ai_error, ai_title, close_text, pick_rows, record_button, AiBody, PickRow,
};
use typst_live::panes::{
    error_rows, jumped_message, layers, opens_file, page_label, panels, preview_body, right_body,
    toolbar, tree_body, Layer, Overlays, Panel, PreviewBody, RightBody, RightPane, ToolbarSlot,
    TreeBody,
};
use typst_live::record::State;
use typst_live::settings::Settings;
use typst_live::statusbar::{
    document_cells, error_badge, first_error_line, performance, status_bar, view_cells, Figures,
};

fn options() -> Options {
    Options::from_settings(&Settings::default())
}

fn labels(rows: &[MenuRow]) -> Vec<String> {
    rows.iter()
        .filter_map(|r| match r {
            MenuRow::Item { label, .. } => Some(label.clone()),
            MenuRow::Separator => None,
        })
        .collect()
}

fn diag(is_error: bool, line: Option<usize>, message: &str) -> Diagnostic {
    Diagnostic {
        is_error,
        line_col: line.map(|line| LineCol { line, col: 0 }),
        message: message.to_string(),
    }
}

fn no_overlays() -> Overlays {
    Overlays {
        shell: false,
        ai: AiStage::Closed,
        ai_settings: false,
        folder_picker: false,
        close_prompt: false,
    }
}

#[test]
fn everything_is_on_at_first() {
    let o = options();
    assert!(o.show_tree && o.show_editor && o.show_preview && o.show_toolbar && o.show_statusbar);
    assert!(o.autosave && o.rec_mic);
    assert_eq!(o.preview_bg, PreviewBg::Solid);
}

#[test]
fn options_come_back_from_the_settings() {
    let mut o = options();
    o.set_pane_visible(PaneToggle::Tree, false);
    assert_eq!(o.set_preview_bg(PreviewBg::Grid), "预览背景：网格");
    assert_eq!(o.set_folding(false), "代码折叠：关");
    assert_eq!(o.set_show_metrics(true), "状态栏：显示性能指标");
    assert_eq!(o.set_follow_cursor(false), "跟随光标：关");
    let s = o.desired_settings(&Settings::default(), Some((1, 2, 3, 4)), None, "1.5".to_string());
    assert_eq!(s.zoom, Some("1.5".to_string()));
    let again = Options::from_settings(&Settings::parse(&s.render()));
    assert!(!again.show_tree);
    assert!(again.show_editor);
    assert_eq!(again.preview_bg, PreviewBg::Grid);
    assert!(again.show_metrics);
    assert!(!again.folding);
}

#[test]
fn backgrounds_have_settings_and_names() {
    assert_eq!(PreviewBg::from_setting(Some("grid")), PreviewBg::Grid);
    assert_eq!(PreviewBg::from_setting(Some("?")), PreviewBg::Solid);
    assert_eq!(PreviewBg::Grid.as_setting(), "grid");
    assert_eq!(PreviewBg::Solid.label(), "纯色");
    assert_eq!(PreviewBg::Solid.other(), PreviewBg::Grid);
}

#[test]
fn the_form_keeps_only_what_differs() {
    let c = AiConfig::from_form(" https://api.deepseek.com/chat/completions ", " m ", "", None, None);
    assert_eq!(c.base_url, None);
    assert_eq!(c.model, Some("m".to_string()));
    assert_eq!(c.key, None);
    assert_eq!(c.summary(None, None, false), "api.deepseek.com · m · ⚠ 没配 Key");
    assert_eq!(c.summary(Some("http://localhost:1/v1"), None, false), "localhost:1 · m · 本地端点，无需 Key");
    assert_eq!(c.summary(None, Some("e"), true), "api.deepseek.com · e · Key 已配");
}

#[test]
fn the_file_menu_lists_recent_directories() {
    let rows = labels(&file_menu(&vec!["D:/a/b/c".to_string()]));
    assert_eq!(rows[0], "保存（Ctrl+S）");
    assert!(rows.contains(&"b/c".to_string()), "{rows:?}");
    assert!(labels(&file_menu(&vec![])).contains(&"（还没有）".to_string()));
}

#[test]
fn the_theme_in_use_is_ticked() {
    let rows = theme_menu(&vec!["A".to_string(), "B".to_string()], "B");
    match &rows[1] {
        MenuRow::Item { label, checked, command } => {
            assert_eq!(label, "B");
            assert!(*checked);
            assert_eq!(*command, Some(Command::UseTheme(1)));
        }
        MenuRow::Separator => panic!("该是一项"),
    }
}

#[test]
fn the_ai_menu_offers_a_selected_file() {
    let with = labels(&ai_menu("小结", Some("w/b.typ")));
    assert!(with.contains(&"AI 处理「b.typ」…".to_string()), "{with:?}");
    let without = labels(&ai_menu("小结", None));
    assert!(!without.iter().any(|l| l.starts_with("AI 处理")), "{without:?}");
    assert!(without.contains(&"AI 设置…".to_string()));
}

#[test]
fn what_is_hidden_can_be_shown_again() {
    let mut o = options();
    o.set_pane_visible(PaneToggle::Statusbar, false);
    let rows = view_menu(&o, None, false);
    assert!(rows.iter().any(|r| matches!(
        r,
        MenuRow::Item { command: Some(Command::SetPane(PaneToggle::Statusbar, true)), .. }
    )));
    assert!(labels(&view_menu(&o, Some(State::Paused), false)).contains(&"继续录（Ctrl+Alt+P）".to_string()));
    assert!(labels(&view_menu(&o, None, true)).contains(&"收尾中…（拼接 / 合成）".to_string()));
}

#[test]
fn layers_go_by_the_switches_and_the_question_is_in_front() {
    let mut o = options();
    assert_eq!(
        layers(&o, no_overlays()),
        vec![Layer::Menu, Layer::Toolbar, Layer::Main, Layer::Statusbar]
    );
    o.set_pane_visible(PaneToggle::Toolbar, false);
    let all = Overlays {
        shell: true,
        ai: AiStage::Ask,
        ai_settings: true,
        folder_picker: true,
        close_prompt: true,
    };
    let got = layers(&o, all);
    assert_eq!(got[0], Layer::Menu);
    assert!(!got.contains(&Layer::Toolbar));
    assert!(got.contains(&Layer::Shell));
    assert_eq!(*got.last().unwrap(), Layer::ClosePrompt);
}

#[test]
fn panels_go_by_the_switches() {
    let mut o = options();
    assert_eq!(panels(&o), vec![Panel::Tree, Panel::Editor, Panel::Preview]);
    o.set_pane_visible(PaneToggle::Editor, false);
    assert_eq!(panels(&o), vec![Panel::Tree, Panel::Preview]);
}

#[test]
fn the_toolbar_has_every_button() {
    let slots = toolbar();
    assert_eq!(slots.iter().filter(|s| matches!(s, ToolbarSlot::Button(_))).count(), 27);
    assert_eq!(slots.iter().filter(|s| matches!(s, ToolbarSlot::Colors)).count(), 1);
}

#[test]
fn the_tree_says_where_it_stands() {
    match tree_body(None, "D:/x/y/z", false, 0) {
        TreeBody::Unread { button } => assert_eq!(button, "扫描 y/z"),
        _ => panic!("还没扫"),
    }
    assert!(matches!(tree_body(Some("r"), "r", true, 0), TreeBody::Reading));
    assert!(matches!(tree_body(Some("r"), "r", false, 0), TreeBody::Empty { .. }));
    assert!(matches!(tree_body(Some("r"), "r", false, 1), TreeBody::Tree));
    assert!(opens_file(false));
    assert!(!opens_file(true));
}

#[test]
fn the_right_side_shows_pages_text_or_a_picture() {
    assert!(matches!(right_body(RightPane::Preview, true, false), RightBody::Preview));
    assert!(matches!(right_body(RightPane::Markdown, false, false), RightBody::Markdown));
    match right_body(RightPane::Markdown, true, false) {
        RightBody::Note(t) => assert_eq!(t, "在左边目录树里点一个 .md 文件"),
        _ => panic!("没有内容该提示"),
    }
    assert!(matches!(right_body(RightPane::Image, false, true), RightBody::Image));
    assert!(matches!(preview_body(false, false), PreviewBody::Waiting));
    assert!(matches!(preview_body(true, true), PreviewBody::PagesAndErrors));
    assert_eq!(page_label(0), "第 1 页");
    assert_eq!(jumped_message(4), "已跳到第 5 行");
    let mut md = MarkdownView::new();
    assert!(md.is_empty());
    md.set_source("a.md".to_string(), "# A".to_string());
    assert!(!md.is_empty());
}

#[test]
fn the_first_errors_are_listed() {
    let all: Vec<Diagnostic> = (0..8).map(|i| diag(i > 0, if i == 0 { None } else { Some(i) }, "坏")).collect();
    let rows = error_rows(&all, "错误", "警告");
    assert_eq!(rows.len(), 6);
    assert_eq!(rows[0].place, "警告");
    assert_eq!(rows[0].line, None);
    assert_eq!(rows[1].place, "第 2 行");
    assert_eq!(rows[1].line, Some(1));
}

#[test]
fn the_status_bar_counts() {
    let f = Figures {
        compile_ms: "1.2".to_string(),
        raster_ms: "3.4".to_string(),
        index_ms: "5".to_string(),
        reparsed: 10,
        text_bytes: 100,
        compiles: 2,
        rasters: 3,
        index_builds: 0,
    };
    assert_eq!(
        performance(&f),
        vec!["排版 1.2ms", "光栅化 3.4ms", "重解析 10B/100B", "排版2·光栅3·索引0 次"]
    );
    assert_eq!(view_cells(0, 0, true, "100", "0")[0], "0 页");
    assert_eq!(view_cells(5, 1, true, "100", "0")[..2], ["2/5 页", "充满 100%"]);
    assert_eq!(document_cells("10 字", 3, true, true), vec!["10 字", "3 标题", "● 待自动保存"]);
    assert_eq!(error_badge(0), "✓ 无错误");
    assert_eq!(error_badge(2), "✗ 2 错误");
    let diags = vec![diag(false, Some(1), "w"), diag(true, Some(7), "e")];
    assert_eq!(first_error_line(&diags), Some(7));
    let bar = status_bar(false, &f, vec![], vec![], 1, &diags, None);
    assert!(bar.performance.is_none());
    assert_eq!(bar.errors, "✗ 1 错误");
    assert_eq!(bar.error_line, Some(7));
}

#[test]
fn the_overlay_of_a_round_follows_its_stage() {
    let mut ai = AiEdit::open(AiScope::Document, "全文".to_string(), true, false);
    assert_eq!(ai_title(&ai, "m").0, "AI 编辑");
    match ai_body(&ai, true, 0) {
        AiBody::Ask { buttons, active } => {
            assert_eq!(buttons[0], ScopeChoice::Selection);
            assert_eq!(active, Some(ScopeChoice::Document));
        }
        _ => panic!("该在问"),
    }
    ai.send("a\n".to_string(), true, false, "u");
    match ai_body(&ai, false, 12) {
        AiBody::Running { progress } => assert_eq!(progress, "已生成 12 字…"),
        _ => panic!("该在生成"),
    }
    ai.take_ai_result(Some(Ok("b\n".to_string())), &mut vec![]);
    match ai_body(&ai, false, 0) {
        AiBody::Blocks { blocks } => {
            assert_eq!(blocks[0].heading, "第 1 块  +1  -1");
            assert_eq!(blocks[0].verdict, "接受");
            assert_eq!(blocks[0].lines, vec!["- a", "+ b"]);
        }
        _ => panic!("该有一块"),
    }
    assert_eq!(ai_error(&ai), None);
    ai.error = Some("x".to_string());
    assert_eq!(ai_error(&ai), Some("失败：x".to_string()));
}

#[test]
fn directories_can_be_picked() {
    let rows = pick_rows(&vec!["/".to_string()], &vec!["w/a".to_string()]);
    assert!(matches!(rows[0], PickRow::Up));
    match rows.last().unwrap() {
        PickRow::Dir { label, path } => {
            assert_eq!(label, "· a");
            assert_eq!(path, "w/a");
        }
        _ => panic!("该是目录"),
    }
    assert_eq!(close_text("w/a.typ"), "a.typ 改过但还没写进文件。现在关掉，改动就没了。");
}

#[test]
fn the_button_for_recording_tells_the_time() {
    let idle = record_button(None, false, 0);
    assert_eq!(idle.label, "录屏");
    assert_eq!(idle.pause, None);
    let on = record_button(Some(State::Recording), false, 83);
    assert_eq!(on.label, "⏺ 01:23 停止");
    assert_eq!(on.pause, Some("⏸ 暂停"));
    assert_eq!(record_button(Some(State::Paused), false, 0).pause, Some("▶ 继续"));
    assert_eq!(record_button(None, true, 0).label, "收尾中…");
}

#[test]
fn what_is_due_is_done_in_order() {
    let p = Pending {
        first_compile: true,
        window_moved: false,
        forward: true,
        reload: false,
        watching: true,
    };
    assert_eq!(steps(p), vec![Step::FirstCompile, Step::FitZoom, Step::SyncPages, Step::JumpForward]);
    assert!(window_moved(None, (0, 0, 1, 1)));
    assert!(!window_moved(Some((0, 0, 1, 1)), (0, 0, 1, 1)));
}

#[test]
fn keys_and_the_wheel() {
    assert_eq!(focus_target(AiStage::Review, false, false, false), Focus::Ai);
    assert_eq!(focus_target(AiStage::Review, false, true, false), Focus::ClosePrompt);
    assert_eq!(focus_target(AiStage::Ask, false, false, false), Focus::Keep);
    assert!(matches!(wheel(false, true, 1), Wheel::Scroll { pause_follow: true }));
    assert!(matches!(wheel(true, true, 1), Wheel::ZoomIn));
    assert!(matches!(wheel(true, true, -1), Wheel::ZoomOut));
    assert!(matches!(wheel(true, false, 0), Wheel::Nothing));
    assert!(matches!(submit(AiStage::Review), Submit::Apply));
    assert!(matches!(submit(AiStage::Ask), Submit::Start));
    assert!(toggle_shell(false));
}
