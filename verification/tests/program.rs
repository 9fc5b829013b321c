//! Starting, working directories, pages, messages and errors.

use typst_live::diag::{panic_line, payload_text, Site};
use typst_live::diagnostics::{
    dedupe_diags, diag_lines, diagnostic_summary, error_count, squiggle_end, Diagnostic, LineCol,
};
use typst_live::labels::{color_label, scanning_message, short_label, short_path, theme_message};
use typst_live::path::{extension, file_name, is_same, join};
use typst_live::preview::{
    editor_click, export_message, follow, format_document, forward_message, inverse_message,
    needs_index, no_place_message, open_link, page_click, page_for, redraw, Export, Follow,
    texture_bytes, Formatted, Link, PageClick, PageKey, Redraw, Viewport,
};
use typst_live::safe_update::{is_borrow_conflict, may_close, outcome, try_again, Caught, UpdateOutcome};
use typst_live::startup::{
    default_shell, first_root, key_line, mode, route, test_messages, window_box, Loading, Mode,
    Route, DEMO_DOC,
};
use typst_live::tree::Entry;
use typst_live::workspace::{push_recent_dir, FolderPicker, Workspace};

fn strings(list: &[&str]) -> Vec<String> {
    list.iter().map(|s| s.to_string()).collect()
}

fn at(line: usize, col: usize) -> LineCol {
    LineCol { line, col }
}

fn diag(is_error: bool, place: Option<LineCol>, message: &str) -> Diagnostic {
    Diagnostic { is_error, line_col: place, message: message.to_string() }
}

#[test]
fn arguments_say_what_to_do() {
    assert!(matches!(mode(&vec![]), Mode::Edit(None)));
    assert!(matches!(mode(&strings(&["a.typ"])), Mode::Edit(Some(p)) if p == "a.typ"));
    assert!(matches!(mode(&strings(&["--rec-selftest"])), Mode::RecordTest(5)));
    assert!(matches!(mode(&strings(&["--rec-selftest", "12"])), Mode::RecordTest(12)));
    assert!(matches!(mode(&strings(&["--rec-selftest", "x"])), Mode::RecordTest(5)));
    assert!(matches!(mode(&strings(&["--rec-selftest", "0"])), Mode::Edit(None)));
    assert!(matches!(mode(&strings(&["--ai-selftest", "insert"])), Mode::AiTest(true)));
    assert!(matches!(mode(&strings(&["--ai-selftest"])), Mode::AiTest(false)));
}

#[test]
fn the_first_file_that_can_be_read_is_opened() {
    let mut l = Loading::new(Some("a.typ".to_string()), Some("b.typ".to_string()));
    assert_eq!(l.next(), Some("a.typ".to_string()));
    assert!(l.feed(None).is_none());
    assert_eq!(l.next(), Some("b.typ".to_string()));
    let opened = l.feed(Some("内容".to_string())).unwrap();
    assert_eq!(opened.path, "b.typ");
    assert!(opened.explicit_file);
    let demo = Loading::demo("/tmp");
    assert_eq!(demo.text, DEMO_DOC);
    assert!(!demo.explicit_file);
    assert_eq!(demo.path, "/tmp/typst-live-demo.typ");
}

#[test]
fn where_the_program_begins() {
    assert_eq!(window_box(Some((1, 2, 300, 400))), (1, 2, 300, 400));
    assert_eq!(window_box(None), (80, 60, 1320, 880));
    assert_eq!(first_root(true, "w", Some("c")), "w");
    assert_eq!(default_shell(true, Some("/bin/zsh")), "powershell.exe");
    assert_eq!(default_shell(false, Some("/bin/zsh")), "/bin/zsh");
    assert_eq!(default_shell(false, None), "/bin/sh");
    assert_eq!(key_line(false, "http://localhost"), "无（本地端点，不需要）");
    assert_eq!(test_messages(false, "").len(), 2);
}

#[test]
fn a_file_goes_where_it_can_be_shown() {
    assert!(matches!(route("w/a.png", None), Route::Image(m) if m == "图片 a.png"));
    assert!(matches!(route("w/a.MD", None), Route::Markdown(m) if m == "Markdown a.MD"));
    assert!(matches!(route("w/a.typ", None), Route::Editor(m) if m == "a.typ"));
    assert!(matches!(route("w/a.typ", Some("x")), Route::Failed(m) if m == "打不开 w/a.typ：x"));
}

#[test]
fn the_last_directory_comes_first_and_once() {
    let many: Vec<String> = (0..8).map(|i| format!("d{i}")).collect();
    let got = push_recent_dir(&many, "d3/");
    assert_eq!(got.len(), 8);
    assert_eq!(got[0], "d3/");
    assert_eq!(got[1], "d0");
    let got = push_recent_dir(&many, "new");
    assert_eq!(got.len(), 8);
    assert_eq!(got[7], "d6");
}

#[test]
fn the_workspace_moves_only_into_directories() {
    let mut w = Workspace { root: "r".to_string(), recent_dirs: strings(&["gone", "x/y"]) };
    assert_eq!(w.set_root_dir("a/b/c".to_string(), true), ("工作区目录：b/c".to_string(), true));
    assert_eq!(w.root, "a/b/c");
    assert_eq!(w.set_root_dir("f".to_string(), false), ("f 不是一个目录".to_string(), false));
    assert_eq!(w.root, "a/b/c");
    assert_eq!(w.recent(0), Some("a/b/c".to_string()));
    let (message, moved) = w.use_recent_dir(1, false).unwrap();
    assert_eq!(message, "gone 已经不存在了，从最近列表里去掉");
    assert!(!moved);
    assert!(!w.recent_dirs.contains(&"gone".to_string()));
    assert!(w.use_recent_dir(9, true).is_none());
}

#[test]
fn a_directory_is_picked_step_by_step() {
    let dir = |name: &str| Entry { name: name.to_string(), is_dir: true, is_file: false };
    let mut p = FolderPicker::new("w".to_string(), &Some(vec![dir("b"), dir("a")]));
    assert_eq!(p.dirs, vec!["w/a", "w/b"]);
    p.enter_dir("w/a".to_string(), &None);
    assert_eq!(p.cwd, "w/a");
    assert!(p.dirs.is_empty());
    p.up(Some("w".to_string()), &Some(vec![dir("a")]));
    assert_eq!(p.cwd, "w");
    p.up(None, &None);
    assert_eq!(p.cwd, "w");
}

#[test]
fn pages_near_what_is_seen_are_drawn_and_others_let_go() {
    let mut v = Viewport { held: vec![], live: None, current: 0 };
    v.reset(10);
    let plan = v.sync_visible_pages(10, 0, 1).unwrap();
    assert_eq!(plan.draw, vec![0, 1, 2]);
    for page in plan.draw {
        v.drew(page, true);
    }
    assert!(v.sync_visible_pages(10, 0, 1).is_none());
    let plan = v.sync_visible_pages(10, 5, 5).unwrap();
    assert_eq!(plan.drop, vec![0, 1, 2]);
    assert_eq!(plan.draw, vec![4, 5, 6]);
    assert_eq!(v.current, 5);
    assert_eq!(v.go_to_page(99), Some((9, "第 10 / 10 页".to_string())));
    assert_eq!(page_for(PageKey::Next, 3, 10), 4);
    assert_eq!(page_for(PageKey::Prev, 0, 10), 0);
    assert_eq!(page_for(PageKey::Last, 0, 10), 9);
    assert_eq!(page_for(PageKey::First, 5, 10), 0);
}

#[test]
fn the_preview_follows_unless_it_was_moved() {
    assert_eq!(follow(false, None, 1, 2), Follow::Stop);
    assert_eq!(follow(true, Some(2999), 1, 2), Follow::Wait);
    assert_eq!(follow(true, Some(3000), 1, 2), Follow::Go);
    assert_eq!(follow(true, None, 2, 2), Follow::Wait);
}

#[test]
fn presses_jump_and_open() {
    assert_eq!(page_click(1, true), PageClick::OpenLink);
    assert_eq!(page_click(1, false), PageClick::Nothing);
    assert_eq!(page_click(2, true), PageClick::JumpToSource);
    assert!(editor_click(2));
    assert!(!editor_click(1));
    assert!(needs_index(true, false, true, true));
    assert!(!needs_index(true, true, true, true));
    assert!(!needs_index(true, false, false, true));
}

#[test]
fn messages_of_the_preview() {
    assert_eq!(forward_message(2, 0), "第 3 行 → 第 1 页");
    assert_eq!(inverse_message(0, Some(2)), "显示区 → 第 3 行（第 1 页）");
    assert_eq!(inverse_message(0, None), "第 1 页这里没有可定位的文字");
    assert_eq!(no_place_message(false, false), "还没排过版，没地方可跳");
    let (url, said) = open_link(&Link::Url("https://x".to_string()));
    assert_eq!(url, Some("https://x".to_string()));
    assert_eq!(said, "打开 https://x");
    assert_eq!(open_link(&Link::Absent), (None, "这里没有链接".to_string()));
    assert_eq!(redraw(true, true), Redraw::Keep);
    assert_eq!(redraw(true, false), Redraw::Draw);
    assert_eq!(redraw(false, false), Redraw::Clear);
    assert_eq!(export_message(&Export::Faults(2)), "导出失败：2 条诊断");
    assert_eq!(export_message(&Export::Done("a.pdf".to_string())), "已导出 a.pdf");
    assert!(matches!(format_document("a", Ok("a".to_string())).0, Formatted::Same));
    assert!(matches!(format_document("a", Ok("b".to_string())).0, Formatted::Changed(t) if t == "b"));
    assert_eq!(format_document("a", Err("x".to_string())).1, "格式化失败（语法可能不完整）：x");
}

#[test]
fn updates_in_conflict_are_put_off() {
    assert!(is_borrow_conflict(Some("RefCell already borrowed")));
    assert!(!is_borrow_conflict(Some("index out of bounds")));
    assert!(!is_borrow_conflict(None));
    assert!(matches!(outcome(Caught::Value(1)), Ok(UpdateOutcome::Done(1))));
    assert!(matches!(outcome::<i32>(Caught::Gone), Ok(UpdateOutcome::Gone)));
    let clash = Caught::<i32>::Panicked(Some("already borrowed: BorrowMutError".to_string()));
    assert!(matches!(outcome(clash), Ok(UpdateOutcome::Busy)));
    assert!(outcome(Caught::<i32>::Panicked(Some("x".to_string()))).is_err());
    assert!(!may_close(&UpdateOutcome::Busy));
    assert!(may_close(&UpdateOutcome::Gone));
    assert!(try_again(&UpdateOutcome::<bool>::Busy, 7));
    assert!(!try_again(&UpdateOutcome::<bool>::Busy, 8));
}

#[test]
fn a_panic_is_written_down_in_one_line() {
    let site = Some(Site { file: "a.rs".to_string(), line: 3, column: 7 });
    assert_eq!(panic_line(false, &site, Some("坏")), Some("[panic] a.rs:3:7 —— 坏".to_string()));
    assert_eq!(panic_line(true, &site, Some("坏")), None);
    assert_eq!(payload_text(None), "（非字符串载荷）");
}

#[test]
fn diagnostics_are_told_once_and_counted() {
    let all = vec![
        diag(true, Some(at(1, 2)), "a"),
        diag(true, Some(at(1, 2)), "a"),
        diag(false, Some(at(1, 2)), "a"),
        diag(true, None, "b"),
    ];
    let once = dedupe_diags(&all);
    assert_eq!(once.len(), 3);
    assert_eq!(error_count(&once), 2);
    assert_eq!(diag_lines(&once, true), vec![(1, 1)]);
    assert_eq!(diag_lines(&once, false), vec![(1, 1)]);
    assert_eq!(diagnostic_summary(&once), "第 2 行：a\n第 2 行：a\nb\n");
}

#[test]
fn a_squiggle_is_never_empty() {
    assert_eq!(squiggle_end(at(1, 2), None), at(1, 3));
    assert_eq!(squiggle_end(at(1, 2), Some(at(1, 2))), at(1, 3));
    assert_eq!(squiggle_end(at(1, 2), Some(at(1, 9))), at(1, 9));
}

#[test]
fn paths_are_shortened() {
    assert_eq!(short_path("D:\\a\\b\\c.typ"), "b/c.typ");
    assert_eq!(short_path("c.typ"), "c.typ");
    assert_eq!(short_path(""), "");
    assert_eq!(short_label("w/x/c.typ"), "c.typ");
    assert_eq!(scanning_message("w/x/y"), "正在扫描 x/y…");
    assert_eq!(theme_message("A", true), "主题 → A");
    assert_eq!(theme_message("A", false), "不认识的主题：A");
    assert_eq!(color_label("red"), "红");
}

#[test]
fn parts_of_paths() {
    assert_eq!(join("w", "a"), "w/a");
    assert_eq!(join("", "a"), "a");
    assert_eq!(file_name("w/a.typ"), Some("a.typ".to_string()));
    assert_eq!(extension("w/a.tar.gz"), Some("gz".to_string()));
    assert_eq!(extension(".hidden"), None);
    assert!(is_same("w//a/", "w/a"));
    assert!(!is_same("w/a", "w/b"));
}

#[test]
fn pictures_take_four_bytes_for_each_point() {
    assert_eq!(texture_bytes(&vec![]), 0);
    assert_eq!(texture_bytes(&vec![(850, 1050), (1, 2)]), 3_570_008);
}

#[test]
fn a_share_comes_before_the_parts_of_a_path() {
    assert_eq!(file_name("\\\\server\\share"), None);
    assert_eq!(file_name("\\\\server\\share\\"), None);
    assert_eq!(file_name("//server/share/a.typ"), Some("a.typ".to_string()));
    assert_eq!(file_name("\\\\server"), Some("server".to_string()));
    assert_eq!(extension("\\\\server\\share.typ"), None);
    assert!(is_same("\\\\server\\share\\w\\a", "//server/share//w/a/"));
    assert!(is_same("\\\\server\\share", "\\\\server\\share\\"));
    assert!(!is_same("\\\\server\\share\\a", "\\server\\share\\a"));
    assert!(!is_same("\\\\server\\share\\a", "\\\\server\\other\\a"));
    assert!(!is_same("\\\\server\\share\\a", "\\\\other\\share\\a"));
    assert!(is_same("///server/share/a", "/server/share/a"));
}

#[test]
fn both_slashes_stand_between_the_parts_of_a_path() {
    assert_eq!(file_name("w\\a.typ"), Some("a.typ".to_string()));
    assert_eq!(extension("D:\\文档\\a.PDF"), Some("PDF".to_string()));
    assert_eq!(file_name("C:\\"), None);
    assert_eq!(file_name("C:"), None);
    assert!(is_same("D:\\w\\a", "d:/w//a/"));
    assert!(!is_same("D:\\w", "D:w"), "一个从根开始，一个不是");
    assert!(!is_same("C:\\w", "D:\\w"));
    assert_eq!(join("D:\\w\\", "a"), "D:\\w\\a");
    assert_eq!(join("D:", "a"), "D:a");
    assert_eq!(short_label("D:\\w\\c.typ"), "c.typ");
}
