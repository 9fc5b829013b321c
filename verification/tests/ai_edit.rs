//! Rounds of editing with a language model.

use typst_live::ai::AiTask;
use typst_live::ai_edit::{
    ai_menu_file, ai_scope_choice, ai_scope_choices, ai_scope_label, ai_scope_text,
    current_ai_scope, default_ai_scope, run_ai_task, scope_for, task_message, write_message,
    AiEdit, AiStage, Applied, Start,
};
use typst_live::ai_scope::{AiScope, ScopeChoice};

const MAIN: &str = "w/main.typ";

fn asked(scope: AiScope) -> AiEdit {
    AiEdit::open(scope, "标签".to_string(), true, false)
}

fn reviewed(scope: AiScope, original: &str, reply: &str) -> AiEdit {
    let mut ai = asked(scope);
    let mut history = vec![];
    assert!(ai.send(original.to_string(), true, false, "https://x"));
    assert!(ai.take_ai_result(Some(Ok(reply.to_string())), &mut history));
    assert_eq!(ai.stage, AiStage::Review);
    ai
}

#[test]
fn a_round_is_asked_sent_and_reviewed() {
    let mut ai = asked(AiScope::Document);
    let mut history = vec![];
    let started = ai.start("改短", "提示", Ok("1\n2\n3\n".to_string()), &mut history);
    let (messages, original) = match started {
        Start::Go { messages, original } => (messages, original),
        _ => panic!("该发出去"),
    };
    assert_eq!(messages.last().unwrap().1, "改短");
    assert_eq!(history, vec![(true, "改短".to_string())]);
    assert!(ai.send(original, true, false, "https://x"));
    assert_eq!(ai.stage, AiStage::Running);
    assert!(!ai.take_ai_result(None, &mut history));
    assert!(ai.take_ai_result(Some(Ok("```\n1\nX\n3\n```".to_string())), &mut history));
    assert_eq!(ai.result, "1\nX\n3");
    assert_eq!(history.len(), 2);
}

#[test]
fn an_insertion_is_given_its_hint() {
    let mut ai = asked(AiScope::Insert { at: 0 });
    let mut history = vec![];
    match ai.start("写一句", "提示", Ok("上下文".to_string()), &mut history) {
        Start::Go { messages, .. } => assert_eq!(messages.last().unwrap().1, "提示\n\n写一句"),
        _ => panic!("该发出去"),
    }
}

#[test]
fn nothing_is_sent_without_a_wish_a_text_or_a_key() {
    let mut history = vec![];
    let mut ai = asked(AiScope::Document);
    match ai.start("  ", "", Ok("x".to_string()), &mut history) {
        Start::Refused(m) => assert_eq!(m, "先说一句要改什么"),
        _ => panic!("没说要求不该发"),
    }
    match ai.start("改", "", Err("没有".to_string()), &mut history) {
        Start::Refused(m) => assert_eq!(m, "没有"),
        _ => panic!("没有上下文不该发"),
    }
    assert_eq!(ai.error, Some("没有".to_string()));
    assert!(!ai.send("x".to_string(), false, false, "https://x"));
    assert_eq!(ai.stage, AiStage::Ask);
    assert!(ai.error.clone().unwrap().contains("https://x"));
    assert!(ai.send("x".to_string(), false, true, "http://localhost"));
}

#[test]
fn an_empty_answer_is_an_error() {
    let mut ai = asked(AiScope::Document);
    let mut history = vec![];
    ai.send("x".to_string(), true, false, "u");
    ai.take_ai_result(Some(Ok("``` \n```".to_string())), &mut history);
    assert_eq!(ai.error, Some("AI 返回为空".to_string()));
    assert_eq!(ai.stage, AiStage::Ask);
    assert!(history.is_empty());
}

#[test]
fn blocks_are_chosen_one_by_one() {
    let mut ai = reviewed(AiScope::Document, "1\n2\n3\n4\n5\n", "1\nX\n3\n4\nY\n");
    assert_eq!(ai.hunks.len(), 2);
    ai.ai_move(1);
    ai.ai_move(5);
    assert_eq!(ai.selected, 1);
    assert_eq!(ai.ai_toggle_hunk(), Some("第 2 块已拒绝".to_string()));
    assert_eq!(ai.ai_toggle_hunk(), Some("第 2 块已接受".to_string()));
    ai.ai_toggle_hunk();
    ai.ai_move(isize::MIN);
    assert_eq!(ai.selected, 0);
    match ai.apply_ai("1\n2\n3\n4\n5\n", 3, MAIN).unwrap() {
        Applied::Edit { text, message, caret } => {
            assert_eq!(text, "1\nX\n3\n4\n5\n");
            assert_eq!(message, "AI 改动已应用（1/2 块）");
            assert_eq!(caret, 3);
        }
        _ => panic!("该落进编辑器"),
    }
    assert_eq!(ai.stage, AiStage::Closed);
}

#[test]
fn a_text_that_has_changed_is_left_alone() {
    let mut ai = reviewed(AiScope::Selection(0..2), "ab", "XY");
    assert!(matches!(ai.apply_ai("zzcd", 0, MAIN), Some(Applied::Stale)));
    assert_eq!(ai.stage, AiStage::Review);
    assert!(ai.error.is_some());
    match ai.apply_ai("abcd", 0, MAIN) {
        Some(Applied::Edit { text, caret, .. }) => {
            assert_eq!(text, "XYcd");
            assert_eq!(caret, 2);
        }
        _ => panic!("没变就该换上"),
    }
}

#[test]
fn an_insertion_leaves_the_text_as_it_is() {
    let mut ai = reviewed(AiScope::Insert { at: 3 }, "ctx", "新");
    assert!(ai.hunks.is_empty());
    match ai.apply_ai("中文", 0, MAIN) {
        Some(Applied::Edit { text, caret, message }) => {
            assert_eq!(text, "中新文");
            assert_eq!(caret, 6);
            assert_eq!(message, "已插入到光标处（1 字）");
        }
        _ => panic!("该插进去"),
    }
}

#[test]
fn another_file_is_written_and_the_open_one_is_not() {
    let file = |p: &str| AiScope::File(p.to_string());
    let mut ai = reviewed(file("w/b.typ"), "a\n", "b\n");
    match ai.apply_ai("doc", 0, MAIN) {
        Some(Applied::Write { path, text, kept, total }) => {
            assert_eq!((path.as_str(), text.as_str(), kept, total), ("w/b.typ", "b\n", 1, 1));
        }
        _ => panic!("该写回文件"),
    }
    let mut ai = reviewed(file(MAIN), "doc", "cod");
    assert!(matches!(ai.apply_ai("doc", 0, MAIN), Some(Applied::Edit { .. })));
    assert_eq!(write_message("w/b.typ", 1, 2, None), "已写回「b.typ」（1/2 块）—— Ctrl+B 可重排全文");
    assert_eq!(write_message("w/b.typ", 1, 2, Some("x")), "写回「b.typ」失败：x");
}

#[test]
fn scopes_are_chosen_labelled_and_read() {
    let doc = "第一\n第二\n";
    assert!(matches!(default_ai_scope(doc, 0, 0..6), AiScope::Selection(_)));
    assert!(matches!(default_ai_scope(doc, 0, 3..3), AiScope::Paragraph(_)));
    assert!(matches!(current_ai_scope(0..0), AiScope::Document));
    assert_eq!(ai_scope_choices(0..0).len(), 3);
    assert_eq!(ai_scope_choices(0..1)[0], ScopeChoice::Selection);
    assert_eq!(ai_scope_choice(&AiScope::File("x".to_string())), None);
    assert!(scope_for(ScopeChoice::Selection, doc, 0, 2..2).is_none());
    assert_eq!(
        ai_scope_label(&AiScope::Selection(0..6), doc, MAIN),
        "选区 2 字：第一 → 替换选区"
    );
    assert_eq!(ai_scope_label(&AiScope::Document, doc, MAIN), "全文 6 字 → 覆盖全文");
    assert_eq!(
        ai_scope_label(&AiScope::File("w/b.typ".to_string()), doc, MAIN),
        "文件 b.typ → 写回该文件"
    );
    let none = || Err("没读".to_string());
    assert_eq!(
        ai_scope_text(&AiScope::Selection(0..6), doc, MAIN, none()),
        Ok("第一".to_string())
    );
    assert!(ai_scope_text(&AiScope::Selection(1..6), doc, MAIN, none()).is_err());
    assert_eq!(
        ai_scope_text(&AiScope::File("w/b.typ".to_string()), doc, MAIN, none()),
        Err("读不了「b.typ」：没读".to_string())
    );
}

#[test]
fn a_file_in_the_tree_can_be_worked_on() {
    assert_eq!(ai_menu_file(Some("w/b.typ"), true, MAIN), Some("w/b.typ".to_string()));
    assert_eq!(ai_menu_file(Some(MAIN), true, MAIN), None);
    assert_eq!(ai_menu_file(Some("w"), false, MAIN), None);
    assert_eq!(ai_menu_file(None, true, MAIN), None);
}

#[test]
fn a_task_goes_off_at_once() {
    let mut history = vec![];
    let (ai, start) = run_ai_task(
        AiTask::Proofread,
        AiScope::Document,
        "全文",
        Ok("正文".to_string()),
        "",
        &mut history,
    );
    assert_eq!(ai.stage, AiStage::Running);
    match start {
        Start::Go { messages, original } => {
            assert_eq!(messages.len(), 3);
            assert_eq!(original, "正文");
        }
        _ => panic!("该发出去"),
    }
    let (_, start) =
        run_ai_task(AiTask::Proofread, AiScope::Document, "", Ok(" ".to_string()), "", &mut history);
    match start {
        Start::Refused(m) => assert_eq!(m, "没有可处理的文字"),
        _ => panic!("空文字不该发"),
    }
    assert_eq!(task_message(AiTask::Proofread, "全文"), "AI 任务：中文校对（全文）");
}

#[test]
fn a_round_can_be_called_off_and_given_another_scope() {
    let mut ai = reviewed(AiScope::Document, "a\n", "b\n");
    ai.set_scope(AiScope::Insert { at: 0 }, "插入".to_string());
    assert_eq!(ai.stage, AiStage::Ask);
    assert_eq!(ai.scope_label, "插入");
    ai.cancel();
    assert_eq!(ai.stage, AiStage::Closed);
}
