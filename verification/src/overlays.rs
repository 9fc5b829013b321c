//! What lies over the window: a round with the language model, the choice of a
//! directory, the question about unsaved changes; and the button of the recording.

use vstd::prelude::*;
use vstd::string::*;

use crate::ai_edit;
use crate::ai_edit::{choice_of, choices, AiEdit, AiStage, Round};
use crate::ai_scope::{AiScope, ScopeChoice};
use crate::decimal;
use crate::decimal::decimal;
use crate::diff::{DiffKind, DiffLine, Hunk, ShownLine};
use crate::labels;
use crate::labels::label_of;
use crate::path;
use crate::path::{name_of, same_path};
use crate::record;
use crate::record::{clock, State};
use crate::text;
use crate::text::{optional, text_lines, views};

verus! {

/// What a round is called, and which keys there are.
pub open spec fn ai_words(stage: AiStage, scope: AiScope, main_path: Seq<char>) -> (
    Seq<char>,
    Seq<char>,
) {
    match stage {
        AiStage::Closed => (Seq::empty(), Seq::empty()),
        AiStage::Ask => ("AI 编辑"@, "Enter 发送 · 上面几个小按钮换上下文 · Esc 取消"@),
        AiStage::Running => ("AI 编辑 · 生成中"@, "Esc 取消"@),
        AiStage::Review => match scope {
            AiScope::Insert { .. } => ("AI 编辑 · 插入到光标"@, "Enter 插入 · Esc 放弃"@),
            AiScope::File(p) => if same_path(p@, main_path) {
                (
                    "AI 编辑 · 确认改动"@,
                    "Enter 应用 · Tab/空格 切换本块 · ↑↓ 选块 · Esc 放弃"@,
                )
            } else {
                (
                    "AI 编辑 · 确认改动"@,
                    "Enter 写回文件 · Tab/空格 切换本块 · ↑↓ 选块 · Esc 放弃"@,
                )
            },
            _ => (
                "AI 编辑 · 确认改动"@,
                "Enter 应用 · Tab/空格 切换本块 · ↑↓ 选块 · Esc 放弃"@,
            ),
        },
    }
}

/// What a round is called, and which keys there are.
pub fn ai_title(ai: &AiEdit, main_path: &str) -> (r: (&'static str, &'static str))
    ensures
        (r.0@, r.1@) == ai_words(ai@.stage, ai@.scope, main_path@),
{
    match ai.stage {
        AiStage::Closed => {
            proof {
                reveal_strlit("");
                assert(""@ =~= Seq::<char>::empty());
            }
            ("", "")
        },
        AiStage::Ask => ("AI 编辑", "Enter 发送 · 上面几个小按钮换上下文 · Esc 取消"),
        AiStage::Running => ("AI 编辑 · 生成中", "Esc 取消"),
        AiStage::Review => match &ai.scope {
            AiScope::Insert { .. } => ("AI 编辑 · 插入到光标", "Enter 插入 · Esc 放弃"),
            AiScope::File(p) => {
                if path::is_same(p.as_str(), main_path) {
                    (
                        "AI 编辑 · 确认改动",
                        "Enter 应用 · Tab/空格 切换本块 · ↑↓ 选块 · Esc 放弃",
                    )
                } else {
                    (
                        "AI 编辑 · 确认改动",
                        "Enter 写回文件 · Tab/空格 切换本块 · ↑↓ 选块 · Esc 放弃",
                    )
                }
            },
            _ => (
                "AI 编辑 · 确认改动",
                "Enter 应用 · Tab/空格 切换本块 · ↑↓ 选块 · Esc 放弃",
            ),
        },
    }
}

/// The scopes that can be chosen in a round: only before it is sent, and not for a file
/// that was picked in the tree.
pub fn scope_buttons(ai: &AiEdit, selected: bool) -> (r: Vec<ScopeChoice>)
    ensures
        r@ == if ai@.stage == AiStage::Ask && !(ai@.scope is File) {
            choices(selected)
        } else {
            Seq::empty()
        },
{
    let file = match &ai.scope {
        AiScope::File(_) => true,
        _ => false,
    };
    if ai.stage == AiStage::Ask && !file {
        if selected {
            ai_edit::ai_scope_choices(0..1)
        } else {
            ai_edit::ai_scope_choices(0..0)
        }
    } else {
        Vec::new()
    }
}

/// What is said while the model works.
pub fn progress_text(generated: usize) -> (r: String)
    ensures
        r@ == "已生成 "@ + decimal(generated as nat) + " 字…"@,
{
    let count = decimal::show_size(generated);
    text::three("已生成 ", count.as_str(), " 字…")
}

/// What is said of an insertion.
pub fn insert_text(result: &str) -> (r: (String, Vec<String>))
    ensures
        r.0@ == "将插入 "@ + decimal(result@.len()) + " 字到光标处（原文一个字不动）"@,
        views(r.1@) == text_lines(result@),
{
    let count = decimal::show_size(text::count(result));
    (
        text::three("将插入 ", count.as_str(), " 字到光标处（原文一个字不动）"),
        text::lines(result),
    )
}

/// A block of changes as it is shown.
pub struct Block {
    pub heading: String,
    /// Whether it is taken over, in a word.
    pub verdict: &'static str,
    pub accepted: bool,
    pub selected: bool,
    /// Its lines, each with a sign.
    pub lines: Vec<String>,
}

/// A line with its sign.
pub open spec fn signed_line(l: ShownLine) -> Seq<char> {
    (if l.kind == DiffKind::Add {
        "+"@
    } else {
        "-"@
    }) + " "@ + l.text
}

/// How many lines of a kind there are.
pub open spec fn lines_of_kind(h: Seq<ShownLine>, kind: DiffKind) -> nat {
    h.filter(|l: ShownLine| l.kind == kind).len()
}

/// What stands above a block.
pub open spec fn block_heading(index: nat, h: Seq<ShownLine>) -> Seq<char> {
    "第 "@ + decimal(index + 1) + " 块  +"@ + decimal(lines_of_kind(h, DiffKind::Add)) + "  -"@
        + decimal(lines_of_kind(h, DiffKind::Del))
}

/// `b` shows block `k` of a round.
pub open spec fn shows_block(b: Block, r: Round, k: int) -> bool {
    let accepted = k >= r.accepted.len() || r.accepted[k];
    &&& b.heading@ == block_heading(k as nat, r.hunks[k])
    &&& b.accepted == accepted
    &&& b.verdict@ == if accepted {
        "接受"@
    } else {
        "拒绝"@
    }
    &&& b.selected == (k == r.selected)
    &&& views(b.lines@) == r.hunks[k].map_values(|l: ShownLine| signed_line(l))
}

fn show_line(l: &DiffLine) -> (r: String)
    ensures
        r@ == signed_line(l@),
{
    if l.kind == DiffKind::Add {
        text::three("+", " ", l.text.as_str())
    } else {
        text::three("-", " ", l.text.as_str())
    }
}

fn show_lines(h: &Hunk) -> (r: Vec<String>)
    ensures
        views(r@) == h@.map_values(|l: ShownLine| signed_line(l)),
{
    let mut out: Vec<String> = Vec::new();
    let mut i: usize = 0;
    while i < h.lines.len()
        invariant
            i <= h.lines@.len(),
            out@.len() == i,
            forall|j: int| 0 <= j < i ==> (#[trigger] out@[j])@ == signed_line(h.lines@[j]@),
        decreases h.lines@.len() - i,
    {
        out.push(show_line(&h.lines[i]));
        i += 1;
    }
    assert(views(out@) =~= h@.map_values(|l: ShownLine| signed_line(l)));
    out
}

/// The blocks of a round as they are shown.
pub fn blocks(ai: &AiEdit) -> (r: Vec<Block>)
    ensures
        r@.len() == ai@.hunks.len(),
        forall|k: int| 0 <= k < r@.len() ==> shows_block(#[trigger] r@[k], ai@, k),
{
    let mut out: Vec<Block> = Vec::new();
    let n: usize = ai.hunks.len();
    assert(n == ai@.hunks.len());
    let mut k: usize = 0;
    while k < n
        invariant
            k <= n,
            n == ai.hunks@.len() == ai@.hunks.len(),
            out@.len() == k,
            forall|j: int| 0 <= j < k ==> shows_block(#[trigger] out@[j], ai@, j),
        decreases n - k,
    {
        let h = &ai.hunks[k];
        assert(ai@.hunks[k as int] == h@);
        let accepted = if k < ai.accepted.len() {
            ai.accepted[k]
        } else {
            true
        };
        let number = decimal::show_size(k + 1);
        let added = decimal::show_size(h.added());
        let removed = decimal::show_size(h.removed());
        let mut heading = text::three("第 ", number.as_str(), " 块  +");
        heading.append(added.as_str());
        heading.append("  -");
        heading.append(removed.as_str());
        let verdict = if accepted {
            "接受"
        } else {
            "拒绝"
        };
        let b = Block {
            heading,
            verdict,
            accepted,
            selected: k == ai.selected,
            lines: show_lines(h),
        };
        out.push(b);
        k += 1;
    }
    out
}

/// What a round shows.
pub enum AiBody {
    Nothing,
    /// A field for what is wanted, and buttons for the scope.
    Ask { buttons: Vec<ScopeChoice>, active: Option<ScopeChoice> },
    Running { progress: String },
    /// A text that is inserted as it is.
    Insert { heading: String, lines: Vec<String> },
    Blocks { blocks: Vec<Block> },
    /// The answer says what the text says already.
    Same,
}

/// What is said where an answer changes nothing.
pub const SAME_TEXT: &'static str = "模型返回的内容与原文本一致（没有可应用的改动）";

/// `b` is what a round shows.
pub open spec fn is_body(b: AiBody, r: Round, selected: bool, generated: nat) -> bool {
    match r.stage {
        AiStage::Closed => b is Nothing,
        AiStage::Ask => b matches AiBody::Ask { buttons, active } && {
            &&& buttons@ == if r.scope is File {
                Seq::empty()
            } else {
                choices(selected)
            }
            &&& active == choice_of(r.scope)
        },
        AiStage::Running => b matches AiBody::Running { progress } && progress@ == "已生成 "@
            + decimal(generated) + " 字…"@,
        AiStage::Review => if r.scope is Insert {
            b matches AiBody::Insert { heading, lines } && {
                &&& heading@ == "将插入 "@ + decimal(r.result.len())
                    + " 字到光标处（原文一个字不动）"@
                &&& views(lines@) == text_lines(r.result)
            }
        } else if r.hunks.len() == 0 {
            b is Same
        } else {
            b matches AiBody::Blocks { blocks } && {
                &&& blocks@.len() == r.hunks.len()
                &&& forall|k: int| 0 <= k < blocks@.len() ==> shows_block(#[trigger] blocks@[k], r, k)
            }
        },
    }
}

/// What a round shows. `generated` is how much has come of the answer.
pub fn ai_body(ai: &AiEdit, selected: bool, generated: usize) -> (r: AiBody)
    ensures
        is_body(r, ai@, selected, generated as nat),
{
    match ai.stage {
        AiStage::Closed => AiBody::Nothing,
        AiStage::Ask => AiBody::Ask {
            buttons: scope_buttons(ai, selected),
            active: ai_edit::ai_scope_choice(&ai.scope),
        },
        AiStage::Running => AiBody::Running { progress: progress_text(generated) },
        AiStage::Review => {
            let inserting = match &ai.scope {
                AiScope::Insert { .. } => true,
                _ => false,
            };
            if inserting {
                let (heading, lines) = insert_text(ai.result.as_str());
                AiBody::Insert { heading, lines }
            } else {
                let n: usize = ai.hunks.len();
                assert(n == ai@.hunks.len());
                if n == 0 {
                    AiBody::Same
                } else {
                    AiBody::Blocks { blocks: blocks(ai) }
                }
            }
        },
    }
}

/// What is said of what went wrong in a round.
pub fn ai_error(ai: &AiEdit) -> (r: Option<String>)
    ensures
        optional(r) == match ai@.error {
            Some(e) => Some("失败："@ + e),
            None => None,
        },
{
    match &ai.error {
        Some(e) => Some(text::both("失败：", e.as_str())),
        None => None,
    }
}

/// A row in the choice of a directory.
pub enum PickRow {
    /// Leads up.
    Up,
    /// Leads to a drive or the root.
    Root(String),
    /// Leads into a directory; what it is called and where it is.
    Dir { label: String, path: String },
}

/// A row, its texts as sequences.
pub enum Pick {
    Up,
    Root(Seq<char>),
    Dir { label: Seq<char>, path: Seq<char> },
}

impl View for PickRow {
    type V = Pick;

    open spec fn view(&self) -> Pick {
        match *self {
            PickRow::Up => Pick::Up,
            PickRow::Root(t) => Pick::Root(t@),
            PickRow::Dir { label, path } => Pick::Dir { label: label@, path: path@ },
        }
    }
}

/// What a directory is called in the list.
pub open spec fn dir_label(dir: Seq<char>) -> Seq<char> {
    "· "@ + match name_of(dir) {
        Some(name) => name,
        None => Seq::empty(),
    }
}

/// What the row that leads up says.
pub const UP_LABEL: &'static str = "..（上一层）";

/// The rows of the choice: up, the roots, the directories.
pub open spec fn pick_list(roots: Seq<Seq<char>>, dirs: Seq<Seq<char>>) -> Seq<Pick> {
    seq![Pick::Up] + roots.map_values(|t: Seq<char>| Pick::Root(t)) + dirs.map_values(
        |d: Seq<char>| Pick::Dir { label: dir_label(d), path: d },
    )
}

/// The rows of the choice.
pub fn pick_rows(roots: &Vec<String>, dirs: &Vec<String>) -> (r: Vec<PickRow>)
    ensures
        r@.map_values(|x: PickRow| x@) == pick_list(views(roots@), views(dirs@)),
{
    let ghost want_roots = views(roots@).map_values(|t: Seq<char>| Pick::Root(t));
    let ghost want_dirs = views(dirs@).map_values(
        |d: Seq<char>| Pick::Dir { label: dir_label(d), path: d },
    );
    let ghost see = |x: PickRow| x@;
    let mut out: Vec<PickRow> = Vec::new();
    out.push(PickRow::Up);
    assert(out@.map_values(see) =~= seq![Pick::Up] + want_roots.take(0));
    let mut i: usize = 0;
    while i < roots.len()
        invariant
            i <= roots@.len(),
            see == (|x: PickRow| x@),
            want_roots == views(roots@).map_values(|t: Seq<char>| Pick::Root(t)),
            out@.map_values(see) == seq![Pick::Up] + want_roots.take(i as int),
        decreases roots@.len() - i,
    {
        let ghost before = out@;
        out.push(PickRow::Root(roots[i].clone()));
        assert(out@.map_values(see) =~= before.map_values(see).push(want_roots[i as int]));
        assert(out@.map_values(see) =~= seq![Pick::Up] + want_roots.take(i + 1));
        i += 1;
    }
    assert(want_roots.take(i as int) =~= want_roots);
    let ghost head = out@.map_values(see);
    assert(head =~= head + want_dirs.take(0));
    let mut k: usize = 0;
    while k < dirs.len()
        invariant
            k <= dirs@.len(),
            see == (|x: PickRow| x@),
            want_dirs == views(dirs@).map_values(
                |d: Seq<char>| Pick::Dir { label: dir_label(d), path: d },
            ),
            out@.map_values(see) == head + want_dirs.take(k as int),
        decreases dirs@.len() - k,
    {
        let ghost before = out@;
        let mut label = "· ".to_owned();
        match path::file_name(dirs[k].as_str()) {
            Some(name) => {
                label.append(name.as_str());
            },
            None => {
                assert(label@ =~= "· "@ + Seq::<char>::empty());
            },
        }
        out.push(PickRow::Dir { label, path: dirs[k].clone() });
        assert(out@.map_values(see) =~= before.map_values(see).push(want_dirs[k as int]));
        assert(out@.map_values(see) =~= head + want_dirs.take(k + 1));
        k += 1;
    }
    assert(want_dirs.take(k as int) =~= want_dirs);
    out
}

/// What the question about unsaved changes says.
pub fn close_text(path: &str) -> (r: String)
    ensures
        r@ == label_of(path@) + " 改过但还没写进文件。现在关掉，改动就没了。"@,
{
    let name = labels::short_label(path);
    text::both(name.as_str(), " 改过但还没写进文件。现在关掉，改动就没了。")
}

/// The button of the recording.
pub struct RecordButton {
    pub label: String,
    pub hint: &'static str,
    /// Whether it is to stand out.
    pub alarm: bool,
    /// What the button says that pauses or goes on, where there is one.
    pub pause: Option<&'static str>,
}

/// The button of the recording. `recording` is what the recording is doing, where there
/// is one; `secs` is how long it has been.
pub fn record_button(recording: Option<State>, finalizing: bool, secs: u64) -> (r: RecordButton)
    ensures
        r.label@ == if finalizing {
            "收尾中…"@
        } else if recording is Some {
            "⏺ "@ + clock(secs as nat) + " 停止"@
        } else {
            "录屏"@
        },
        r.hint@ == if finalizing {
            "正在拼接 / 合成，完了状态栏会说存到哪"@
        } else if recording is Some {
            "停止录屏（Ctrl+Alt+R）"@
        } else {
            "录屏（Ctrl+Alt+R）：只录本软件窗口那一块 + 麦克风"@
        },
        r.alarm == recording is Some,
        match r.pause {
            Some(t) => recording is Some && t@ == if recording == Some(State::Paused) {
                "▶ 继续"@
            } else {
                "⏸ 暂停"@
            },
            None => recording is None,
        },
{
    let (label, hint) = if finalizing {
        ("收尾中…".to_owned(), "正在拼接 / 合成，完了状态栏会说存到哪")
    } else if recording.is_some() {
        let time = record::elapsed_label(secs);
        (text::three("⏺ ", time.as_str(), " 停止"), "停止录屏（Ctrl+Alt+R）")
    } else {
        ("录屏".to_owned(), "录屏（Ctrl+Alt+R）：只录本软件窗口那一块 + 麦克风")
    };
    let pause = match recording {
        Some(state) => Some(
            if state == State::Paused {
                "▶ 继续"
            } else {
                "⏸ 暂停"
            },
        ),
        None => None,
    };
    RecordButton { label, hint, alarm: recording.is_some(), pause }
}

/// Every root and every directory can be chosen, in order, below the way up.
pub proof fn every_directory_can_be_chosen(roots: Seq<Seq<char>>, dirs: Seq<Seq<char>>, i: int)
    requires
        0 <= i,
    ensures
        pick_list(roots, dirs).len() == 1 + roots.len() + dirs.len(),
        pick_list(roots, dirs)[0] == Pick::Up,
        i < roots.len() ==> pick_list(roots, dirs)[1 + i] == Pick::Root(roots[i]),
        i < dirs.len() ==> pick_list(roots, dirs)[1 + roots.len() + i] == (Pick::Dir {
            label: dir_label(dirs[i]),
            path: dirs[i],
        }),
{
}

} // verus!
