//! The menus: what they list, what is ticked, and what each entry does.

use vstd::prelude::*;
use vstd::string::*;

use crate::ai::AiTask;
use crate::labels;
use crate::labels::{label_of, shortened};
use crate::options::{Options, PaneToggle, Switches};
use crate::record::State;
use crate::text;
use crate::text::{said, views};

verus! {

/// What an entry of a menu does.
#[derive(Clone, Copy, PartialEq, Eq, Debug, Structural)]
pub enum Command {
    Save,
    Recompile,
    ExportPdf,
    OpenFolder,
    /// Works in the recent directory of this number.
    UseRecent(usize),
    OpenAi,
    Quit,
    /// Takes the theme of this number.
    UseTheme(usize),
    /// Opens a round for the file that is selected in the tree.
    OpenAiForFile,
    RunTask(AiTask),
    OpenAiSettings,
    SetPane(PaneToggle, bool),
    ToggleRecording,
    TogglePause,
    SetMic(bool),
    SetCam(bool),
}

/// A row of a menu. An entry without a command can only be read.
pub enum MenuRow {
    Separator,
    Item { label: String, checked: bool, command: Option<Command> },
}

/// A row of a menu, its text as a sequence.
pub enum Line {
    Separator,
    Item { label: Seq<char>, checked: bool, command: Option<Command> },
}

impl View for MenuRow {
    type V = Line;

    open spec fn view(&self) -> Line {
        match *self {
            MenuRow::Separator => Line::Separator,
            MenuRow::Item { label, checked, command } => Line::Item {
                label: label@,
                checked,
                command,
            },
        }
    }
}

/// The rows of a menu, their texts as sequences.
pub open spec fn rows(v: Seq<MenuRow>) -> Seq<Line> {
    v.map_values(|r: MenuRow| r@)
}

/// An entry that does something.
pub open spec fn entry(label: Seq<char>, command: Command) -> Line {
    Line::Item { label, checked: false, command: Some(command) }
}

/// An entry that does something and may be ticked.
pub open spec fn tick(label: Seq<char>, checked: bool, command: Command) -> Line {
    Line::Item { label, checked, command: Some(command) }
}

/// An entry that can only be read.
pub open spec fn notice(label: Seq<char>) -> Line {
    Line::Item { label, checked: false, command: None }
}

fn add_row(menu: &mut Vec<MenuRow>, row: MenuRow)
    ensures
        rows(final(menu)@) == rows(old(menu)@).push(row@),
{
    let ghost before = menu@;
    menu.push(row);
    assert(rows(menu@) =~= rows(before).push(row@));
}

fn add_entry(menu: &mut Vec<MenuRow>, label: &str, command: Command)
    ensures
        rows(final(menu)@) == rows(old(menu)@).push(entry(label@, command)),
{
    add_row(menu, MenuRow::Item { label: label.to_owned(), checked: false, command: Some(command) })
}

fn add_tick(menu: &mut Vec<MenuRow>, label: &str, checked: bool, command: Command)
    ensures
        rows(final(menu)@) == rows(old(menu)@).push(tick(label@, checked, command)),
{
    add_row(menu, MenuRow::Item { label: label.to_owned(), checked, command: Some(command) })
}

fn add_notice(menu: &mut Vec<MenuRow>, label: &str)
    ensures
        rows(final(menu)@) == rows(old(menu)@).push(notice(label@)),
{
    add_row(menu, MenuRow::Item { label: label.to_owned(), checked: false, command: None })
}

/// The entries for the recent directories, or a word that there are none.
pub open spec fn recent_rows(dirs: Seq<Seq<char>>) -> Seq<Line> {
    if dirs.len() == 0 {
        seq![notice("（还没有）"@)]
    } else {
        Seq::new(
            dirs.len(),
            |i: int| entry(shortened(dirs[i]), Command::UseRecent(i as usize)),
        )
    }
}

/// What the menu "文件" lists.
pub open spec fn file_rows(dirs: Seq<Seq<char>>) -> Seq<Line> {
    seq![
        entry("保存（Ctrl+S）"@, Command::Save),
        entry("重新编译（Ctrl+B）"@, Command::Recompile),
        entry("导出 PDF（Ctrl+E）"@, Command::ExportPdf),
        Line::Separator,
        entry("打开文件夹…"@, Command::OpenFolder),
        notice("最近文件夹"@),
    ] + recent_rows(dirs) + seq![
        Line::Separator,
        entry("AI 编辑…（Ctrl+K）"@, Command::OpenAi),
        Line::Separator,
        entry("退出"@, Command::Quit),
    ]
}

/// What the menu "文件" lists.
pub fn file_menu(dirs: &Vec<String>) -> (r: Vec<MenuRow>)
    ensures
        rows(r@) == file_rows(views(dirs@)),
{
    let mut menu: Vec<MenuRow> = Vec::new();
    assert(rows(menu@) =~= Seq::<Line>::empty());
    add_entry(&mut menu, "保存（Ctrl+S）", Command::Save);
    add_entry(&mut menu, "重新编译（Ctrl+B）", Command::Recompile);
    add_entry(&mut menu, "导出 PDF（Ctrl+E）", Command::ExportPdf);
    add_row(&mut menu, MenuRow::Separator);
    add_entry(&mut menu, "打开文件夹…", Command::OpenFolder);
    add_notice(&mut menu, "最近文件夹");
    let ghost head = rows(menu@);
    let ghost recent = recent_rows(views(dirs@));
    if dirs.len() == 0 {
        add_notice(&mut menu, "（还没有）");
        assert(rows(menu@) =~= head + recent);
    } else {
        let mut i: usize = 0;
        assert(rows(menu@) =~= head + recent.take(0));
        while i < dirs.len()
            invariant
                i <= dirs@.len(),
                dirs@.len() > 0,
                recent == recent_rows(views(dirs@)),
                rows(menu@) == head + recent.take(i as int),
            decreases dirs@.len() - i,
        {
            let label = labels::short_path(dirs[i].as_str());
            add_entry(&mut menu, label.as_str(), Command::UseRecent(i));
            assert(recent[i as int] == entry(label@, Command::UseRecent(i)));
            assert(rows(menu@) =~= head + recent.take(i + 1));
            i += 1;
        }
        assert(recent.take(i as int) =~= recent);
    }
    add_row(&mut menu, MenuRow::Separator);
    add_entry(&mut menu, "AI 编辑…（Ctrl+K）", Command::OpenAi);
    add_row(&mut menu, MenuRow::Separator);
    add_entry(&mut menu, "退出", Command::Quit);
    assert(rows(menu@) =~= file_rows(views(dirs@)));
    menu
}

/// What the menu "主题" lists: all themes, the one in use ticked.
pub open spec fn theme_rows(names: Seq<Seq<char>>, current: Seq<char>) -> Seq<Line> {
    Seq::new(
        names.len(),
        |i: int| tick(names[i], names[i] == current, Command::UseTheme(i as usize)),
    )
}

/// What the menu "主题" lists.
pub fn theme_menu(names: &Vec<String>, current: &str) -> (r: Vec<MenuRow>)
    ensures
        rows(r@) == theme_rows(views(names@), current@),
{
    let mut menu: Vec<MenuRow> = Vec::new();
    let ghost all = theme_rows(views(names@), current@);
    assert(rows(menu@) =~= all.take(0));
    let mut i: usize = 0;
    while i < names.len()
        invariant
            i <= names@.len(),
            all == theme_rows(views(names@), current@),
            rows(menu@) == all.take(i as int),
        decreases names@.len() - i,
    {
        let active = text::same(names[i].as_str(), current);
        add_tick(&mut menu, names[i].as_str(), active, Command::UseTheme(i));
        assert(rows(menu@) =~= all.take(i + 1));
        i += 1;
    }
    assert(all.take(i as int) =~= all);
    menu
}

/// What the menu "AI" lists: what is in use, a round, a round for the file that is
/// selected in the tree, the tasks, and the settings.
pub open spec fn ai_rows(summary: Seq<char>, file: Option<Seq<char>>) -> Seq<Line> {
    seq![
        notice(summary),
        Line::Separator,
        entry("AI 编辑…（Ctrl+K）"@, Command::OpenAi),
    ] + (match file {
        Some(path) => seq![
            entry("AI 处理「"@ + label_of(path) + "」…"@, Command::OpenAiForFile),
        ],
        None => Seq::empty(),
    }) + seq![
        Line::Separator,
        entry(AiTask::SyntaxFix.label_text(), Command::RunTask(AiTask::SyntaxFix)),
        entry(AiTask::Proofread.label_text(), Command::RunTask(AiTask::Proofread)),
        entry(AiTask::Terminology.label_text(), Command::RunTask(AiTask::Terminology)),
        entry(
            AiTask::TranslateToEnglish.label_text(),
            Command::RunTask(AiTask::TranslateToEnglish),
        ),
        entry(
            AiTask::TranslateToChinese.label_text(),
            Command::RunTask(AiTask::TranslateToChinese),
        ),
        Line::Separator,
        entry("AI 设置…"@, Command::OpenAiSettings),
    ]
}

/// What the entry for a file says.
pub fn ai_file_label(path: &str) -> (r: String)
    ensures
        r@ == "AI 处理「"@ + label_of(path@) + "」…"@,
{
    let label = labels::short_label(path);
    text::three("AI 处理「", label.as_str(), "」…")
}

fn add_task(menu: &mut Vec<MenuRow>, task: AiTask)
    ensures
        rows(final(menu)@) == rows(old(menu)@).push(
            entry(task.label_text(), Command::RunTask(task)),
        ),
{
    add_entry(menu, task.label(), Command::RunTask(task))
}

/// What the menu "AI" lists.
pub fn ai_menu(summary: &str, file: Option<&str>) -> (r: Vec<MenuRow>)
    ensures
        rows(r@) == ai_rows(summary@, said(file)),
{
    let mut menu: Vec<MenuRow> = Vec::new();
    assert(rows(menu@) =~= Seq::<Line>::empty());
    add_notice(&mut menu, summary);
    add_row(&mut menu, MenuRow::Separator);
    add_entry(&mut menu, "AI 编辑…（Ctrl+K）", Command::OpenAi);
    if let Some(path) = file {
        let label = ai_file_label(path);
        add_entry(&mut menu, label.as_str(), Command::OpenAiForFile);
    }
    add_row(&mut menu, MenuRow::Separator);
    add_task(&mut menu, AiTask::SyntaxFix);
    add_task(&mut menu, AiTask::Proofread);
    add_task(&mut menu, AiTask::Terminology);
    add_task(&mut menu, AiTask::TranslateToEnglish);
    add_task(&mut menu, AiTask::TranslateToChinese);
    add_row(&mut menu, MenuRow::Separator);
    add_entry(&mut menu, "AI 设置…", Command::OpenAiSettings);
    assert(rows(menu@) =~= ai_rows(summary@, said(file)));
    menu
}

/// The entries that show or hide something, each ticked where it is shown.
pub open spec fn pane_rows(s: Switches) -> Seq<Line> {
    seq![
        tick(
            "显示目录（左栏）"@,
            s.show_tree,
            Command::SetPane(PaneToggle::Tree, !s.show_tree),
        ),
        tick(
            "显示编辑区"@,
            s.show_editor,
            Command::SetPane(PaneToggle::Editor, !s.show_editor),
        ),
        tick(
            "显示展示区"@,
            s.show_preview,
            Command::SetPane(PaneToggle::Preview, !s.show_preview),
        ),
        tick(
            "显示工具栏"@,
            s.show_toolbar,
            Command::SetPane(PaneToggle::Toolbar, !s.show_toolbar),
        ),
        tick(
            "显示状态栏"@,
            s.show_statusbar,
            Command::SetPane(PaneToggle::Statusbar, !s.show_statusbar),
        ),
    ]
}

fn add_panes(menu: &mut Vec<MenuRow>, o: &Options)
    ensures
        rows(final(menu)@) == rows(old(menu)@) + pane_rows(o@),
{
    let ghost before = rows(menu@);
    add_tick(
        menu,
        "显示目录（左栏）",
        o.show_tree,
        Command::SetPane(PaneToggle::Tree, !o.show_tree),
    );
    add_tick(
        menu,
        "显示编辑区",
        o.show_editor,
        Command::SetPane(PaneToggle::Editor, !o.show_editor),
    );
    add_tick(
        menu,
        "显示展示区",
        o.show_preview,
        Command::SetPane(PaneToggle::Preview, !o.show_preview),
    );
    add_tick(
        menu,
        "显示工具栏",
        o.show_toolbar,
        Command::SetPane(PaneToggle::Toolbar, !o.show_toolbar),
    );
    add_tick(
        menu,
        "显示状态栏",
        o.show_statusbar,
        Command::SetPane(PaneToggle::Statusbar, !o.show_statusbar),
    );
    assert(rows(menu@) =~= before + pane_rows(o@));
}

/// The entries for a recording: to start or stop it, to pause or go on, and a word while
/// a film is made.
pub open spec fn record_rows(recording: Option<State>, finalizing: bool) -> Seq<Line> {
    let toggle = entry(
        if recording is Some {
            "停止录屏（Ctrl+Alt+R）"@
        } else {
            "开始录屏（Ctrl+Alt+R）"@
        },
        Command::ToggleRecording,
    );
    let pause = entry(
        if recording == Some(State::Paused) {
            "继续录（Ctrl+Alt+P）"@
        } else {
            "暂停录（Ctrl+Alt+P）"@
        },
        Command::TogglePause,
    );
    let busy = notice("收尾中…（拼接 / 合成）"@);
    match (recording is Some, finalizing) {
        (true, true) => seq![toggle, pause, busy],
        (true, false) => seq![toggle, pause],
        (false, true) => seq![toggle, busy],
        (false, false) => seq![toggle],
    }
}

fn add_recording(menu: &mut Vec<MenuRow>, recording: Option<State>, finalizing: bool)
    ensures
        rows(final(menu)@) == rows(old(menu)@) + record_rows(recording, finalizing),
{
    let ghost before = rows(menu@);
    match recording {
        Some(state) => {
            add_entry(menu, "停止录屏（Ctrl+Alt+R）", Command::ToggleRecording);
            add_entry(
                menu,
                if state == State::Paused {
                    "继续录（Ctrl+Alt+P）"
                } else {
                    "暂停录（Ctrl+Alt+P）"
                },
                Command::TogglePause,
            );
        },
        None => {
            add_entry(menu, "开始录屏（Ctrl+Alt+R）", Command::ToggleRecording);
        },
    }
    if finalizing {
        add_notice(menu, "收尾中…（拼接 / 合成）");
    }
    assert(rows(menu@) =~= before + record_rows(recording, finalizing));
}

/// The entries for what is recorded beside the screen.
pub open spec fn device_rows(s: Switches) -> Seq<Line> {
    seq![
        tick("录麦克风"@, s.rec_mic, Command::SetMic(!s.rec_mic)),
        tick("录摄像头画中画"@, s.rec_cam, Command::SetCam(!s.rec_cam)),
    ]
}

/// What the menu "视图" lists: what is shown, and the recording.
pub open spec fn view_rows(s: Switches, recording: Option<State>, finalizing: bool) -> Seq<Line> {
    pane_rows(s).push(Line::Separator) + record_rows(recording, finalizing) + device_rows(s)
}

/// What the menu "视图" lists.
pub fn view_menu(o: &Options, recording: Option<State>, finalizing: bool) -> (r: Vec<MenuRow>)
    ensures
        rows(r@) == view_rows(o@, recording, finalizing),
{
    let mut menu: Vec<MenuRow> = Vec::new();
    assert(rows(menu@) =~= Seq::<Line>::empty());
    add_panes(&mut menu, o);
    assert(rows(menu@) =~= pane_rows(o@));
    add_row(&mut menu, MenuRow::Separator);
    add_recording(&mut menu, recording, finalizing);
    let ghost before = rows(menu@);
    add_tick(&mut menu, "录麦克风", o.rec_mic, Command::SetMic(!o.rec_mic));
    add_tick(&mut menu, "录摄像头画中画", o.rec_cam, Command::SetCam(!o.rec_cam));
    assert(rows(menu@) =~= before + device_rows(o@));
    menu
}

/// Whatever is hidden can be shown again: the menu always has an entry that turns the
/// state of each part over, ticked where the part is shown.
pub proof fn hidden_parts_can_be_shown_again(s: Switches, recording: Option<State>, finalizing: bool)
    ensures
        ({
            let r = view_rows(s, recording, finalizing);
            &&& r[0] matches Line::Item { checked, command, .. } && checked == s.show_tree
                && command == Some(Command::SetPane(PaneToggle::Tree, !s.show_tree))
            &&& r[1] matches Line::Item { checked, command, .. } && checked == s.show_editor
                && command == Some(Command::SetPane(PaneToggle::Editor, !s.show_editor))
            &&& r[2] matches Line::Item { checked, command, .. } && checked == s.show_preview
                && command == Some(Command::SetPane(PaneToggle::Preview, !s.show_preview))
            &&& r[3] matches Line::Item { checked, command, .. } && checked == s.show_toolbar
                && command == Some(Command::SetPane(PaneToggle::Toolbar, !s.show_toolbar))
            &&& r[4] matches Line::Item { checked, command, .. } && checked == s.show_statusbar
                && command == Some(Command::SetPane(PaneToggle::Statusbar, !s.show_statusbar))
        }),
{
}

/// Every recent directory and every theme is in its menu, and choosing it uses that one.
pub proof fn every_choice_is_in_its_menu(names: Seq<Seq<char>>, current: Seq<char>, i: int)
    requires
        0 <= i < names.len(),
    ensures
        recent_rows(names).len() == names.len(),
        recent_rows(names)[i] == entry(shortened(names[i]), Command::UseRecent(i as usize)),
        theme_rows(names, current).len() == names.len(),
        theme_rows(names, current)[i] == tick(
            names[i],
            names[i] == current,
            Command::UseTheme(i as usize),
        ),
        file_rows(names).len() == names.len() + 10,
        file_rows(names)[6 + i] == recent_rows(names)[i],
{
}

} // verus!
