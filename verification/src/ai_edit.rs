//! A round of editing with a language model: what is asked, what came back, and what is
//! done with it.

use std::ops::Range;

use vstd::prelude::*;
use vstd::string::*;

use crate::ai;
use crate::ai::{
    cleaned, edit_conversation, messages_of, role_text, shortened, AiTask, AI_EDIT_CONTEXT_LIMIT,
};
use crate::ai_scope;
use crate::ai_scope::{
    paragraph_from, paragraph_to, row_of, span_end, splice_end, splice_start, AiScope,
    Landing, ScopeChoice, PARA_PAD,
};
use crate::decimal;
use crate::decimal::decimal;
use crate::diff;
use crate::diff::{blocks, hunk_views, line_changes, rebuilt, Hunk, ShownLine};
use crate::labels;
use crate::labels::label_of;
use crate::offset;
use crate::offset::{bytes, slice_of};
use crate::path;
use crate::path::same_path;
use crate::text;
use crate::text::{optional, trimmed};

verus! {

/// Where a round is.
#[derive(Clone, Copy, PartialEq, Eq, Debug, Structural)]
pub enum AiStage {
    Closed,
    /// The user says what is wanted.
    Ask,
    /// The model works.
    Running,
    /// The user looks at what came back.
    Review,
}

/// A round.
pub struct AiEdit {
    pub stage: AiStage,
    pub scope: AiScope,
    /// What the user is told about the scope.
    pub scope_label: String,
    /// The text that the model was given.
    pub original: String,
    /// What came back.
    pub result: String,
    /// Where the two differ.
    pub hunks: Vec<Hunk>,
    /// Which of these are taken over.
    pub accepted: Vec<bool>,
    /// Which of these the user looks at.
    pub selected: usize,
    /// Whether an answer is waited for.
    pub waiting: bool,
    pub error: Option<String>,
}

/// A round, its texts as sequences.
pub struct Round {
    pub stage: AiStage,
    pub scope: AiScope,
    pub scope_label: Seq<char>,
    pub original: Seq<char>,
    pub result: Seq<char>,
    pub hunks: Seq<Seq<ShownLine>>,
    pub accepted: Seq<bool>,
    pub selected: nat,
    pub waiting: bool,
    pub error: Option<Seq<char>>,
}

impl View for AiEdit {
    type V = Round;

    open spec fn view(&self) -> Round {
        Round {
            stage: self.stage,
            scope: self.scope,
            scope_label: self.scope_label@,
            original: self.original@,
            result: self.result@,
            hunks: hunk_views(self.hunks@),
            accepted: self.accepted@,
            selected: self.selected as nat,
            waiting: self.waiting,
            error: optional(self.error),
        }
    }
}

impl Round {
    /// Each block has a mark, and the user looks at one that is there.
    pub open spec fn sound(self) -> bool {
        &&& self.accepted.len() == self.hunks.len()
        &&& self.hunks.len() > 0 ==> self.selected < self.hunks.len()
    }
}

/// A round of which nothing but the stage, the scope and its label is set.
pub open spec fn blank(stage: AiStage, scope: AiScope, label: Seq<char>) -> Round {
    Round {
        stage,
        scope,
        scope_label: label,
        original: Seq::empty(),
        result: Seq::empty(),
        hunks: Seq::empty(),
        accepted: Seq::empty(),
        selected: 0,
        waiting: false,
        error: None,
    }
}

/// No round.
pub open spec fn closed() -> Round {
    blank(AiStage::Closed, AiScope::Document, Seq::empty())
}

fn empty(stage: AiStage, scope: AiScope, label: String) -> (r: AiEdit)
    ensures
        r@ == blank(stage, scope, label@),
{
    let r = AiEdit {
        stage,
        scope,
        scope_label: label,
        original: String::new(),
        result: String::new(),
        hunks: Vec::new(),
        accepted: Vec::new(),
        selected: 0,
        waiting: false,
        error: None,
    };
    assert(r@.hunks =~= Seq::<Seq<ShownLine>>::empty());
    assert(r@.original =~= Seq::<char>::empty());
    assert(r@.result =~= Seq::<char>::empty());
    r
}

impl Default for AiEdit {
    fn default() -> (r: Self)
        ensures
            r@ == closed(),
    {
        let label = String::new();
        assert(label@ =~= Seq::<char>::empty());
        empty(AiStage::Closed, AiScope::Document, label)
    }
}

/// The scope of a round that the user opens: what is selected, or else the paragraph
/// around the cursor.
pub open spec fn is_default_scope(
    scope: AiScope,
    doc: Seq<char>,
    cursor: int,
    selection: Range<usize>,
) -> bool {
    if selection.start < selection.end {
        scope == AiScope::Selection(selection)
    } else {
        scope matches AiScope::Paragraph(range) && {
            &&& range.start == paragraph_from(doc, cursor, PARA_PAD as int)
            &&& range.end == paragraph_to(doc, cursor, PARA_PAD as int)
        }
    }
}

/// The scope of a round that the user opens.
pub fn default_ai_scope(doc: &str, cursor: usize, selection: Range<usize>) -> (r: AiScope)
    ensures
        is_default_scope(r, doc@, cursor as int, selection),
{
    if selection.start < selection.end {
        return AiScope::Selection(selection);
    }
    AiScope::Paragraph(ai_scope::paragraph_range(doc, cursor, PARA_PAD))
}

/// The scope of a task: what is selected, or else the document.
pub fn current_ai_scope(selection: Range<usize>) -> (r: AiScope)
    ensures
        r == if selection.start < selection.end {
            AiScope::Selection(selection)
        } else {
            AiScope::Document
        },
{
    if selection.start < selection.end {
        AiScope::Selection(selection)
    } else {
        AiScope::Document
    }
}

/// The file in the tree that a round can be opened for: one that is not open already.
pub fn ai_menu_file(selected: Option<&str>, is_file: bool, main_path: &str) -> (r: Option<String>)
    ensures
        match selected {
            Some(p) => optional(r) == if is_file && !same_path(p@, main_path@) {
                Some(p@)
            } else {
                None
            },
            None => r is None,
        },
{
    match selected {
        Some(p) => {
            if is_file && !path::is_same(p, main_path) {
                Some(p.to_owned())
            } else {
                None
            }
        },
        None => None,
    }
}

/// The scopes that can be chosen: a selection only where something is selected.
pub open spec fn choices(selected: bool) -> Seq<ScopeChoice> {
    if selected {
        seq![
            ScopeChoice::Selection,
            ScopeChoice::Paragraph,
            ScopeChoice::Document,
            ScopeChoice::Insert,
        ]
    } else {
        seq![ScopeChoice::Paragraph, ScopeChoice::Document, ScopeChoice::Insert]
    }
}

/// The scopes that can be chosen.
pub fn ai_scope_choices(selection: Range<usize>) -> (r: Vec<ScopeChoice>)
    ensures
        r@ == choices(selection.start < selection.end),
{
    let mut out: Vec<ScopeChoice> = Vec::new();
    if selection.start < selection.end {
        out.push(ScopeChoice::Selection);
    }
    out.push(ScopeChoice::Paragraph);
    out.push(ScopeChoice::Document);
    out.push(ScopeChoice::Insert);
    assert(out@ =~= choices(selection.start < selection.end));
    out
}

/// The choice that a scope came from; a file comes from none.
pub open spec fn choice_of(scope: AiScope) -> Option<ScopeChoice> {
    match scope {
        AiScope::Selection(_) => Some(ScopeChoice::Selection),
        AiScope::Paragraph(_) => Some(ScopeChoice::Paragraph),
        AiScope::Document => Some(ScopeChoice::Document),
        AiScope::Insert { .. } => Some(ScopeChoice::Insert),
        AiScope::File(_) => None,
    }
}

/// The choice that a scope came from; a file comes from none.
pub fn ai_scope_choice(scope: &AiScope) -> (r: Option<ScopeChoice>)
    ensures
        r == choice_of(*scope),
{
    match scope {
        AiScope::Selection(_) => Some(ScopeChoice::Selection),
        AiScope::Paragraph(_) => Some(ScopeChoice::Paragraph),
        AiScope::Document => Some(ScopeChoice::Document),
        AiScope::Insert { .. } => Some(ScopeChoice::Insert),
        AiScope::File(_) => None,
    }
}

/// The scope that a choice stands for now; none where nothing is selected that was
/// chosen.
pub fn scope_for(choice: ScopeChoice, doc: &str, cursor: usize, selection: Range<usize>) -> (r:
    Option<AiScope>)
    ensures
        match choice {
            ScopeChoice::Selection => r == if selection.start < selection.end {
                Some(AiScope::Selection(selection))
            } else {
                None
            },
            ScopeChoice::Paragraph => r matches Some(AiScope::Paragraph(range)) && {
                &&& range.start == paragraph_from(doc@, cursor as int, PARA_PAD as int)
                &&& range.end == paragraph_to(doc@, cursor as int, PARA_PAD as int)
            },
            ScopeChoice::Document => r == Some(AiScope::Document),
            ScopeChoice::Insert => r == Some((AiScope::Insert { at: cursor })),
        },
{
    match choice {
        ScopeChoice::Selection => if selection.start < selection.end {
            Some(AiScope::Selection(selection))
        } else {
            None
        },
        ScopeChoice::Paragraph => Some(
            AiScope::Paragraph(ai_scope::paragraph_range(doc, cursor, PARA_PAD)),
        ),
        ScopeChoice::Document => Some(AiScope::Document),
        ScopeChoice::Insert => Some(AiScope::Insert { at: cursor }),
    }
}

/// The text in a range of the document; nothing where the range fits no text.
pub open spec fn picked(doc: Seq<char>, range: Range<usize>) -> Seq<char> {
    match slice_of(doc, range.start as int, range.end as int) {
        Some(t) => t,
        None => Seq::empty(),
    }
}

/// The beginning of a text, and a sign where there is more.
pub open spec fn glimpse(s: Seq<char>) -> Seq<char> {
    if s.len() > 24 {
        s.take(24) + "…"@
    } else {
        s
    }
}

/// What the user is told about a scope.
pub open spec fn scope_text_label(scope: AiScope, doc: Seq<char>, main_path: Seq<char>) -> Seq<char> {
    match scope {
        AiScope::Selection(range) => "选区 "@ + decimal(picked(doc, range).len()) + " 字："@
            + glimpse(picked(doc, range)) + " → 替换选区"@,
        AiScope::Paragraph(range) => "光标段落（第 "@ + decimal(
            row_of(doc, range.start as int) + 1,
        ) + "–"@ + decimal(row_of(doc, span_end(doc, range)) + 1) + " 行，"@ + decimal(
            picked(doc, range).len(),
        ) + " 字）→ 替换这一段"@,
        AiScope::Document => "全文 "@ + decimal(doc.len()) + " 字 → 覆盖全文"@,
        AiScope::Insert { at } => "插入到光标（第 "@ + decimal(row_of(doc, at as int) + 1)
            + " 行）· 上下文用光标段落，原文不动"@,
        AiScope::File(p) => if same_path(p@, main_path) {
            "打开着的文件 "@ + label_of(p@) + " → 覆盖全文"@
        } else {
            "文件 "@ + label_of(p@) + " → 写回该文件"@
        },
    }
}

fn pick(doc: &str, range: &Range<usize>) -> (r: String)
    ensures
        r@ == picked(doc@, *range),
{
    match offset::slice(doc, range.start, range.end) {
        Some(t) => t.to_owned(),
        None => {
            let none = String::new();
            assert(none@ =~= Seq::<char>::empty());
            none
        },
    }
}

/// What the user is told about a scope.
pub fn ai_scope_label(scope: &AiScope, doc: &str, main_path: &str) -> (r: String)
    requires
        bytes(doc@).len() < usize::MAX,
    ensures
        r@ == scope_text_label(*scope, doc@, main_path@),
{
    match scope {
        AiScope::Selection(range) => {
            let part = pick(doc, range);
            let v = text::chars_of(part.as_str());
            let n: usize = v.len();
            let count = decimal::show_size(n);
            let mut out = text::three("选区 ", count.as_str(), " 字：");
            if n > 24 {
                let head = text::text_of(&v, 0, 24);
                assert(v@.subrange(0, 24) =~= v@.take(24));
                let seen = text::both(head.as_str(), "…");
                out.append(seen.as_str());
            } else {
                out.append(part.as_str());
            }
            out.append(" → 替换选区");
            out
        },
        AiScope::Paragraph(range) => {
            let (from, to) = ai_scope::line_span(doc, range);
            let part = pick(doc, range);
            let first = decimal::show_size(from);
            let last = decimal::show_size(to);
            let count = decimal::show_size(text::count(part.as_str()));
            let mut out = text::three("光标段落（第 ", first.as_str(), "–");
            out.append(last.as_str());
            out.append(" 行，");
            out.append(count.as_str());
            out.append(" 字）→ 替换这一段");
            out
        },
        AiScope::Document => {
            let count = decimal::show_size(text::count(doc));
            text::three("全文 ", count.as_str(), " 字 → 覆盖全文")
        },
        AiScope::Insert { at } => {
            let line = decimal::show_size(ai_scope::line_at(doc, *at));
            text::three(
                "插入到光标（第 ",
                line.as_str(),
                " 行）· 上下文用光标段落，原文不动",
            )
        },
        AiScope::File(p) => {
            let name = labels::short_label(p.as_str());
            if path::is_same(p.as_str(), main_path) {
                text::three("打开着的文件 ", name.as_str(), " → 覆盖全文")
            } else {
                text::three("文件 ", name.as_str(), " → 写回该文件")
            }
        },
    }
}

/// The text that a scope holds. `file` is what the file holds where the scope is a file
/// that is not open.
pub open spec fn scope_content(
    scope: AiScope,
    doc: Seq<char>,
    main_path: Seq<char>,
    file: Result<Seq<char>, Seq<char>>,
) -> Result<Seq<char>, Seq<char>> {
    match scope {
        AiScope::Document => Ok(doc),
        AiScope::Selection(range) | AiScope::Paragraph(range) => match slice_of(
            doc,
            range.start as int,
            range.end as int,
        ) {
            Some(t) => Ok(t),
            None => Err("那段文字已经变了（或选区失效），重新选一次再试"@),
        },
        AiScope::Insert { at } => Ok(
            slice_of(
                doc,
                paragraph_from(doc, at as int, PARA_PAD as int),
                paragraph_to(doc, at as int, PARA_PAD as int),
            )->0,
        ),
        AiScope::File(p) => if same_path(p@, main_path) {
            Ok(doc)
        } else {
            match file {
                Ok(t) => Ok(t),
                Err(why) => Err("读不了「"@ + label_of(p@) + "」："@ + why),
            }
        },
    }
}

/// A result, its texts as sequences.
pub open spec fn outcome(r: Result<String, String>) -> Result<Seq<char>, Seq<char>> {
    match r {
        Ok(t) => Ok(t@),
        Err(e) => Err(e@),
    }
}

fn slice_or_error(doc: &str, range: &Range<usize>) -> (r: Result<String, String>)
    ensures
        outcome(r) == match slice_of(doc@, range.start as int, range.end as int) {
            Some(t) => Ok(t),
            None => Err("那段文字已经变了（或选区失效），重新选一次再试"@),
        },
{
    match offset::slice(doc, range.start, range.end) {
        Some(t) => Ok(t.to_owned()),
        None => Err("那段文字已经变了（或选区失效），重新选一次再试".to_owned()),
    }
}

/// The text that a scope holds.
pub fn ai_scope_text(scope: &AiScope, doc: &str, main_path: &str, file: Result<String, String>)
    -> (r: Result<String, String>)
    ensures
        outcome(r) == scope_content(*scope, doc@, main_path@, outcome(file)),
{
    match scope {
        AiScope::Document => Ok(doc.to_owned()),
        AiScope::Selection(range) => slice_or_error(doc, range),
        AiScope::Paragraph(range) => slice_or_error(doc, range),
        AiScope::Insert { at } => {
            let range = ai_scope::paragraph_range(doc, *at, PARA_PAD);
            proof {
                ai_scope::paragraph_holds_the_cursor(doc@, *at as int, PARA_PAD as int);
            }
            slice_or_error(doc, &range)
        },
        AiScope::File(p) => {
            if path::is_same(p.as_str(), main_path) {
                return Ok(doc.to_owned());
            }
            match file {
                Ok(t) => Ok(t),
                Err(why) => {
                    let label = labels::short_label(p.as_str());
                    let mut out = text::three("读不了「", label.as_str(), "」：");
                    out.append(why.as_str());
                    Err(out)
                },
            }
        },
    }
}

/// What is said where a round is opened that cannot be answered for want of a key.
pub open spec fn missing_key() -> Seq<char> {
    "没配 API Key —— 菜单「AI → AI 设置…」填一个，或用环境变量 AI_API_KEY"@
}

/// What is said where a round that cannot be answered for want of a key is sent.
pub open spec fn missing_key_for(base_url: Seq<char>) -> Seq<char> {
    "没配 API Key（当前端点 "@ + base_url
        + "）—— AI 菜单 → 「AI 设置…」填一个，或设环境变量 AI_API_KEY"@
}

/// A round that the user has opened.
pub open spec fn asked(scope: AiScope, label: Seq<char>, has_key: bool, local: bool) -> Round {
    Round {
        error: if !has_key && !local {
            Some(missing_key())
        } else {
            None
        },
        ..blank(AiStage::Ask, scope, label)
    }
}

/// A round after another scope was chosen. What came back for the old one is dropped.
pub open spec fn rescoped(r: Round, scope: AiScope, label: Seq<char>) -> Round {
    if r.stage == AiStage::Review {
        blank(AiStage::Ask, scope, label)
    } else {
        Round { scope, scope_label: label, error: None, ..r }
    }
}

/// A round after it was sent; without a key that is needed it is not.
pub open spec fn sent(
    r: Round,
    original: Seq<char>,
    has_key: bool,
    local: bool,
    base_url: Seq<char>,
) -> Round {
    if !has_key && !local {
        Round { stage: AiStage::Ask, error: Some(missing_key_for(base_url)), ..r }
    } else {
        Round { stage: AiStage::Running, waiting: true, error: None, original, ..r }
    }
}

/// The blocks that are shown of an answer: an insertion has none.
pub open spec fn shown_blocks(scope: AiScope, original: Seq<char>, result: Seq<char>) -> Seq<
    Seq<ShownLine>,
> {
    if scope is Insert {
        Seq::empty()
    } else {
        blocks(line_changes(original, result))
    }
}

/// A round after an answer came. An empty one counts as a failure, so that it never
/// takes the place of a text; all blocks of another are accepted at first.
pub open spec fn answered(r: Round, reply: Result<Seq<char>, Seq<char>>) -> Round {
    let t = Round { waiting: false, ..r };
    match reply {
        Err(why) => Round { stage: AiStage::Ask, error: Some(why), ..t },
        Ok(reply) => {
            let result = cleaned(reply);
            if trimmed(result).len() == 0 {
                Round { stage: AiStage::Ask, error: Some("AI 返回为空"@), ..t }
            } else {
                let hunks = shown_blocks(r.scope, r.original, result);
                Round {
                    stage: AiStage::Review,
                    result,
                    hunks,
                    accepted: Seq::new(hunks.len(), |i: int| true),
                    selected: 0,
                    ..t
                }
            }
        },
    }
}

/// A history after one more turn.
pub open spec fn grew(
    before: Seq<(bool, String)>,
    after: Seq<(bool, String)>,
    mine: bool,
    said: Seq<char>,
) -> bool {
    &&& after.len() == before.len() + 1
    &&& after.drop_last() == before
    &&& after.last().0 == mine
    &&& after.last().1@ == said
}

/// The block that the user looks at after moving by `delta`.
pub open spec fn moved(r: Round, delta: int) -> nat {
    let next = r.selected + delta;
    if r.hunks.len() == 0 {
        r.selected
    } else if next < 0 {
        0
    } else if next >= r.hunks.len() {
        (r.hunks.len() - 1) as nat
    } else {
        next as nat
    }
}

/// A round after the mark of the block that the user looks at was turned over.
pub open spec fn toggled(r: Round) -> Round {
    if r.selected < r.accepted.len() {
        Round {
            accepted: r.accepted.update(
                r.selected as int,
                !r.accepted[r.selected as int],
            ),
            ..r
        }
    } else {
        r
    }
}

/// How many marks are set.
pub open spec fn count_set(marks: Seq<bool>) -> nat
    decreases marks.len(),
{
    if marks.len() == 0 {
        0
    } else {
        count_set(marks.drop_last()) + if marks.last() {
            1nat
        } else {
            0nat
        }
    }
}

fn marked(marks: &Vec<bool>) -> (r: usize)
    ensures
        r == count_set(marks@),
{
    let mut n: usize = 0;
    let mut i: usize = 0;
    while i < marks.len()
        invariant
            n <= i <= marks@.len(),
            n == count_set(marks@.take(i as int)),
        decreases marks@.len() - i,
    {
        assert(marks@.take(i + 1).drop_last() =~= marks@.take(i as int));
        if marks[i] {
            n += 1;
        }
        i += 1;
    }
    assert(marks@.take(i as int) =~= marks@);
    n
}

/// The text that a round puts in place: an insertion as it came, anything else with
/// the accepted blocks only.
pub open spec fn applied_text(r: Round) -> Seq<char> {
    if r.scope is Insert {
        r.result
    } else {
        rebuilt(r.original, line_changes(r.original, r.result), r.accepted)
    }
}

/// What is done with a round that the user takes over.
pub enum Applied {
    /// Nothing: there is nothing to take over.
    Nothing,
    /// Nothing: the text has changed meanwhile.
    Stale,
    /// The editor's text is replaced, and the cursor put at a byte offset.
    Edit { text: String, caret: usize, message: String },
    /// A file is written.
    Write { path: String, text: String, kept: usize, total: usize },
}

/// What is said when a round was taken over.
pub open spec fn applied_message(r: Round, applied: Seq<char>) -> Seq<char> {
    if r.scope is Insert {
        "已插入到光标处（"@ + decimal(applied.len()) + " 字）"@
    } else {
        "AI 改动已应用（"@ + decimal(count_set(r.accepted)) + "/"@ + decimal(r.hunks.len())
            + " 块）"@
    }
}

/// The document has not changed where a round works on.
pub open spec fn in_place(r: Round, doc: Seq<char>) -> bool {
    match r.scope {
        AiScope::Selection(range) | AiScope::Paragraph(range) => slice_of(
            doc,
            range.start as int,
            range.end as int,
        ) == Some(r.original),
        _ => true,
    }
}

/// The bytes of the document after a range was replaced.
pub open spec fn spliced(doc: Seq<char>, range: Range<usize>, text: Seq<char>) -> Seq<u8> {
    bytes(doc).take(splice_start(doc, range)) + bytes(text) + bytes(doc).skip(
        splice_end(doc, range),
    )
}

/// `a` puts a text in place of the document; the cursor stays as far as the new text
/// reaches.
pub open spec fn is_whole(a: Applied, r: Round, applied: Seq<char>, cursor: int) -> bool {
    a matches Applied::Edit { text, caret, message } && {
        &&& text@ == applied
        &&& caret == if cursor < bytes(applied).len() {
            cursor
        } else {
            bytes(applied).len() as int
        }
        &&& message@ == applied_message(r, applied)
    }
}

/// `a` puts a text in place of a range of the document; the cursor goes behind it.
pub open spec fn is_part(
    a: Applied,
    r: Round,
    applied: Seq<char>,
    doc: Seq<char>,
    range: Range<usize>,
) -> bool {
    a matches Applied::Edit { text, caret, message } && {
        &&& bytes(text@) == spliced(doc, range, applied)
        &&& caret == splice_start(doc, range) + bytes(applied).len()
        &&& message@ == applied_message(r, applied)
    }
}

/// `a` is what is done with a text that the user takes over.
pub open spec fn is_applied(
    a: Applied,
    r: Round,
    applied: Seq<char>,
    doc: Seq<char>,
    cursor: int,
    main_path: Seq<char>,
) -> bool {
    if r.stage != AiStage::Review {
        a is Nothing
    } else if !in_place(r, doc) {
        a is Stale
    } else {
        match r.scope {
            AiScope::Selection(range) => is_part(a, r, applied, doc, range),
            AiScope::Paragraph(range) => is_part(a, r, applied, doc, range),
            AiScope::Insert { at } => is_part(a, r, applied, doc, (at..at)),
            AiScope::Document => is_whole(a, r, applied, cursor),
            AiScope::File(p) => if same_path(p@, main_path) {
                is_whole(a, r, applied, cursor)
            } else {
                a matches Applied::Write { path, text, kept, total } && {
                    &&& path@ == p@
                    &&& text@ == applied
                    &&& kept == count_set(r.accepted)
                    &&& total == r.hunks.len()
                }
            },
        }
    }
}

/// A round after it was taken over: where the text has changed meanwhile, the user is
/// told.
pub open spec fn settled(r: Round, doc: Seq<char>) -> Round {
    if r.stage != AiStage::Review {
        r
    } else if !in_place(r, doc) {
        Round {
            error: Some(
                "那段文字已经变了（或已被外部改动覆盖），这次没有应用 —— Esc 关掉重来"@,
            ),
            ..r
        }
    } else {
        closed()
    }
}

/// What comes of a wish to send a round.
pub enum Start {
    /// Nothing: this is not the time.
    Ignored,
    /// Nothing; this is to be said.
    Refused(String),
    /// The messages are to be sent; `original` is the text that the answer is held
    /// against.
    Go { messages: Vec<(String, String)>, original: String },
}

/// The context of a request.
pub open spec fn context_of(raw: Seq<char>) -> Seq<char> {
    if raw.len() > AI_EDIT_CONTEXT_LIMIT {
        shortened(raw, AI_EDIT_CONTEXT_LIMIT as nat)
    } else {
        raw
    }
}

/// The instruction as it is sent; one for an insertion is led by a hint.
pub open spec fn instruction_of(scope: AiScope, hint: Seq<char>, instruction: Seq<char>) -> Seq<
    char,
> {
    if scope is Insert {
        hint + "\n\n"@ + trimmed(instruction)
    } else {
        trimmed(instruction)
    }
}

/// `s` is what comes of the wish to send a round.
pub open spec fn is_start(
    s: Start,
    r: Round,
    instruction: Seq<char>,
    hint: Seq<char>,
    context: Result<Seq<char>, Seq<char>>,
    history: Seq<(bool, String)>,
) -> bool {
    if r.stage != AiStage::Ask {
        s is Ignored
    } else if trimmed(instruction).len() == 0 {
        s matches Start::Refused(m) && m@ == "先说一句要改什么"@
    } else {
        match context {
            Err(why) => s matches Start::Refused(m) && m@ == why,
            Ok(raw) => s matches Start::Go { messages, original } && {
                &&& original@ == raw
                &&& messages_of(messages@) == edit_conversation(
                    context_of(raw),
                    history,
                    instruction_of(r.scope, hint, instruction),
                )
            },
        }
    }
}

/// What the model is told of its part in a task.
pub const TASK_SYSTEM: &'static str = "你是专业的 Typst 写作助手，只输出结果本身。";

/// The messages of a task.
pub open spec fn task_conversation(task: AiTask, source: Seq<char>, errors: Seq<char>) -> Seq<
    (Seq<char>, Seq<char>),
> {
    seq![
        ("system"@, TASK_SYSTEM@),
        ("user"@, "【当前文本】\n"@ + context_of(source)),
        ("user"@, role_text(task) + "\n\n"@ + (ai::ask_text(task, errors) + source)),
    ]
}

/// The messages of a task.
pub fn task_messages(task: AiTask, source: &str, errors: &str) -> (r: Vec<(String, String)>)
    ensures
        messages_of(r@) == task_conversation(task, source@, errors@),
{
    let prompt = ai::task_prompt(task, source, errors);
    let (context, _) = ai::truncate_context(source, AI_EDIT_CONTEXT_LIMIT);
    let given = text::both("【当前文本】\n", context.as_str());
    let mut out: Vec<(String, String)> = Vec::new();
    out.push(("system".to_owned(), TASK_SYSTEM.to_owned()));
    out.push(("user".to_owned(), given));
    out.push(("user".to_owned(), prompt));
    assert(messages_of(out@) =~= task_conversation(task, source@, errors@));
    out
}

/// A round after a task was to be run on a text, and what comes of it.
pub open spec fn task_round(
    task: AiTask,
    scope: AiScope,
    label: Seq<char>,
    source: Result<Seq<char>, Seq<char>>,
) -> Round {
    match source {
        Ok(text) => if trimmed(text).len() == 0 {
            closed()
        } else {
            blank(AiStage::Running, scope, task.label_text() + " · "@ + label)
        },
        Err(_) => closed(),
    }
}

/// Runs a task on a text: the round, and what is to be sent. The conversation begins
/// anew.
pub fn run_ai_task(
    task: AiTask,
    scope: AiScope,
    label: &str,
    source: Result<String, String>,
    errors: &str,
    history: &mut Vec<(bool, String)>,
) -> (r: (AiEdit, Start))
    ensures
        r.0@ == task_round(task, scope, label@, outcome(source)),
        match outcome(source) {
            Err(why) => r.1 matches Start::Refused(m) && m@ == why,
            Ok(text) => if trimmed(text).len() == 0 {
                r.1 matches Start::Refused(m) && m@ == "没有可处理的文字"@
            } else {
                r.1 matches Start::Go { messages, original } && {
                    &&& original@ == text
                    &&& messages_of(messages@) == task_conversation(task, text, errors@)
                }
            },
        },
        final(history)@ == Seq::<(bool, String)>::empty(),
{
    history.clear();
    let text = match source {
        Ok(t) => t,
        Err(why) => {
            return (AiEdit::default(), Start::Refused(why));
        },
    };
    if text::is_blank(text.as_str()) {
        return (AiEdit::default(), Start::Refused("没有可处理的文字".to_owned()));
    }
    let messages = task_messages(task, text.as_str(), errors);
    let full = text::three(task.label(), " · ", label);
    (empty(AiStage::Running, scope, full), Start::Go { messages, original: text })
}

impl AiEdit {
    /// A round that the user has opened.
    pub fn open(scope: AiScope, label: String, has_key: bool, local: bool) -> (r: Self)
        ensures
            r@ == asked(scope, label@, has_key, local),
    {
        let mut out = empty(AiStage::Ask, scope, label);
        if !has_key && !local {
            out.error = Some(
                "没配 API Key —— 菜单「AI → AI 设置…」填一个，或用环境变量 AI_API_KEY".to_owned(),
            );
        }
        out
    }

    /// Takes over another scope.
    pub fn set_scope(&mut self, scope: AiScope, label: String)
        ensures
            final(self)@ == rescoped(old(self)@, scope, label@),
    {
        if self.stage == AiStage::Review {
            *self = empty(AiStage::Ask, scope, label);
        } else {
            self.scope = scope;
            self.scope_label = label;
            self.error = None;
        }
    }

    /// Gives the round up.
    pub fn cancel(&mut self)
        ensures
            final(self)@ == closed(),
    {
        *self = AiEdit::default();
    }

    /// The round is to be sent: what comes of that. `context` is the text of the scope.
    pub fn start(
        &mut self,
        instruction: &str,
        hint: &str,
        context: Result<String, String>,
        history: &mut Vec<(bool, String)>,
    ) -> (r: Start)
        ensures
            is_start(r, old(self)@, instruction@, hint@, outcome(context), old(history)@),
            final(self)@ == (Round {
                error: if old(self)@.stage == AiStage::Ask && trimmed(instruction@).len() > 0
                    && context is Err {
                    Some(context->Err_0@)
                } else {
                    old(self)@.error
                },
                ..old(self)@
            }),
            r is Go ==> grew(
                old(history)@,
                final(history)@,
                true,
                instruction_of(old(self)@.scope, hint@, instruction@),
            ),
            !(r is Go) ==> final(history)@ == old(history)@,
    {
        if !(self.stage == AiStage::Ask) {
            return Start::Ignored;
        }
        let wish = text::trim(instruction);
        if wish.as_str().is_empty() {
            return Start::Refused("先说一句要改什么".to_owned());
        }
        let raw = match context {
            Ok(t) => t,
            Err(why) => {
                self.error = Some(why.clone());
                return Start::Refused(why);
            },
        };
        let (given, _) = ai::truncate_context(raw.as_str(), AI_EDIT_CONTEXT_LIMIT);
        let inserting = match &self.scope {
            AiScope::Insert { .. } => true,
            _ => false,
        };
        let wish = if inserting {
            text::three(hint, "\n\n", wish.as_str())
        } else {
            wish
        };
        let messages = ai::edit_messages(given.as_str(), history.as_slice(), wish.as_str());
        history.push((true, wish));
        assert(history@.drop_last() =~= old(history)@);
        Start::Go { messages, original: raw }
    }

    /// The messages are to be sent. Says whether they are: not without a key that is
    /// needed.
    pub fn send(&mut self, original: String, has_key: bool, local: bool, base_url: &str) -> (r:
        bool)
        ensures
            final(self)@ == sent(old(self)@, original@, has_key, local, base_url@),
            r == (has_key || local),
    {
        if !has_key && !local {
            self.stage = AiStage::Ask;
            self.error = Some(
                text::three(
                    "没配 API Key（当前端点 ",
                    base_url,
                    "）—— AI 菜单 → 「AI 设置…」填一个，或设环境变量 AI_API_KEY",
                ),
            );
            return false;
        }
        self.stage = AiStage::Running;
        self.waiting = true;
        self.error = None;
        self.original = original;
        true
    }

    /// Takes over an answer, if there is one. Says whether none is waited for any more.
    pub fn take_ai_result(
        &mut self,
        reply: Option<Result<String, String>>,
        history: &mut Vec<(bool, String)>,
    ) -> (r: bool)
        ensures
            r == (!old(self)@.waiting || reply is Some),
            final(self)@ == if old(self)@.waiting && reply is Some {
                answered(old(self)@, outcome(reply->0))
            } else {
                old(self)@
            },
            final(self)@.stage == AiStage::Review && old(self)@.waiting && reply is Some ==> grew(
                old(history)@,
                final(history)@,
                false,
                final(self)@.result,
            ),
            !(final(self)@.stage == AiStage::Review && old(self)@.waiting && reply is Some)
                ==> final(history)@ == old(history)@,
    {
        if !self.waiting {
            return true;
        }
        let answer = match reply {
            Some(a) => a,
            None => {
                return false;
            },
        };
        self.waiting = false;
        match answer {
            Err(why) => {
                self.error = Some(why);
                self.stage = AiStage::Ask;
            },
            Ok(text) => {
                let result = ai::clean_source(text.as_str());
                if text::is_blank(result.as_str()) {
                    self.error = Some("AI 返回为空".to_owned());
                    self.stage = AiStage::Ask;
                } else {
                    let inserting = match &self.scope {
                        AiScope::Insert { .. } => true,
                        _ => false,
                    };
                    self.hunks = if inserting {
                        Vec::new()
                    } else {
                        diff::hunks(self.original.as_str(), result.as_str())
                    };
                    proof {
                        if inserting {
                            assert(hunk_views(self.hunks@) =~= Seq::<Seq<ShownLine>>::empty());
                        }
                        assert(hunk_views(self.hunks@).len() == self.hunks@.len());
                    }
                    self.accepted = all_set(self.hunks.len());
                    self.selected = 0;
                    self.result = result.clone();
                    self.stage = AiStage::Review;
                    history.push((false, result));
                    assert(history@.drop_last() =~= old(history)@);
                }
            },
        }
        true
    }

    /// Looks at another block.
    pub fn ai_move(&mut self, delta: isize)
        requires
            old(self)@.sound(),
        ensures
            final(self)@ == (Round { selected: moved(old(self)@, delta as int), ..old(self)@ }),
    {
        let n: usize = self.hunks.len();
        assert(n == self@.hunks.len());
        if n == 0 {
            return;
        }
        if delta < 0 {
            let back: usize = (-(delta + 1)) as usize + 1;
            self.selected = if self.selected < back {
                0
            } else {
                self.selected - back
            };
        } else {
            let on: usize = delta as usize;
            self.selected = if on >= n - self.selected {
                n - 1
            } else {
                self.selected + on
            };
        }
    }

    /// Turns over the mark of the block that the user looks at, and says so.
    pub fn ai_toggle_hunk(&mut self) -> (r: Option<String>)
        requires
            old(self)@.sound(),
        ensures
            final(self)@ == toggled(old(self)@),
            optional(r) == if old(self)@.selected < old(self)@.accepted.len() {
                Some(
                    "第 "@ + decimal(old(self)@.selected + 1) + " 块已"@
                        + if final(self)@.accepted[old(self)@.selected as int] {
                        "接受"@
                    } else {
                        "拒绝"@
                    },
                )
            } else {
                None
            },
    {
        let k: usize = self.selected;
        if k >= self.accepted.len() {
            return None;
        }
        let on = !self.accepted[k];
        self.accepted.set(k, on);
        let number = decimal::show_size(k + 1);
        let mut out = text::three("第 ", number.as_str(), " 块已");
        out.append(
            if on {
                "接受"
            } else {
                "拒绝"
            },
        );
        Some(out)
    }

    /// Takes a text over into the document. `applied` is the text that stands for what
    /// the round worked on.
    pub fn put(&mut self, applied: &str, doc: &str, cursor: usize, main_path: &str) -> (r: Applied)
        requires
            bytes(doc@).len() + bytes(applied@).len() <= usize::MAX,
        ensures
            is_applied(r, old(self)@, applied@, doc@, cursor as int, main_path@),
            final(self)@ == settled(old(self)@, doc@),
    {
        if !(self.stage == AiStage::Review) {
            return Applied::Nothing;
        }
        let fits = match &self.scope {
            AiScope::Selection(range) => matches_original(
                doc,
                range.start,
                range.end,
                self.original.as_str(),
            ),
            AiScope::Paragraph(range) => matches_original(
                doc,
                range.start,
                range.end,
                self.original.as_str(),
            ),
            _ => true,
        };
        if !fits {
            self.error = Some(
                "那段文字已经变了（或已被外部改动覆盖），这次没有应用 —— Esc 关掉重来".to_owned(),
            );
            return Applied::Stale;
        }
        let kept: usize = marked(&self.accepted);
        let total: usize = self.hunks.len();
        assert(total == self@.hunks.len());
        let message = match &self.scope {
            AiScope::Insert { .. } => {
                let count = decimal::show_size(text::count(applied));
                text::three("已插入到光标处（", count.as_str(), " 字）")
            },
            _ => {
                let some = decimal::show_size(kept);
                let all = decimal::show_size(total);
                let mut out = text::three("AI 改动已应用（", some.as_str(), "/");
                out.append(all.as_str());
                out.append(" 块）");
                out
            },
        };
        let r = match ai_scope::landing(&self.scope, main_path) {
            Landing::Replace(range) => {
                let (text, caret) = ai_scope::splice_at(doc, range, applied);
                Applied::Edit { text, caret, message }
            },
            Landing::Insert { at } => {
                let (text, caret) = ai_scope::splice_at(doc, at..at, applied);
                Applied::Edit { text, caret, message }
            },
            Landing::WholeDocument => {
                let n: usize = offset::size(applied);
                let caret: usize = if cursor < n {
                    cursor
                } else {
                    n
                };
                Applied::Edit { text: applied.to_owned(), caret, message }
            },
            Landing::File(path) => Applied::Write { path, text: applied.to_owned(), kept, total },
        };
        *self = AiEdit::default();
        r
    }

    /// The text that the round puts in place.
    pub fn applied(&self) -> (r: String)
        ensures
            r@ == applied_text(self@),
    {
        match &self.scope {
            AiScope::Insert { .. } => self.result.clone(),
            _ => diff::apply_hunks(
                self.original.as_str(),
                self.result.as_str(),
                self.accepted.as_slice(),
            ),
        }
    }

    /// Takes the round over into the document; nothing is done where that would be
    /// larger than any text can be.
    pub fn apply_ai(&mut self, doc: &str, cursor: usize, main_path: &str) -> (r: Option<Applied>)
        ensures
            r is None == (bytes(doc@).len() + bytes(applied_text(old(self)@)).len() > usize::MAX),
            r matches Some(a) ==> is_applied(
                a,
                old(self)@,
                applied_text(old(self)@),
                doc@,
                cursor as int,
                main_path@,
            ),
            final(self)@ == if r is Some {
                settled(old(self)@, doc@)
            } else {
                old(self)@
            },
    {
        let applied = self.applied();
        if offset::size(applied.as_str()) > usize::MAX - offset::size(doc) {
            return None;
        }
        Some(self.put(applied.as_str(), doc, cursor, main_path))
    }
}

fn all_set(n: usize) -> (r: Vec<bool>)
    ensures
        r@ == Seq::new(n as nat, |i: int| true),
{
    let mut out: Vec<bool> = Vec::new();
    while out.len() < n
        invariant
            out@.len() <= n,
            forall|j: int| 0 <= j < out@.len() ==> out@[j],
        decreases n - out@.len(),
    {
        out.push(true);
    }
    assert(out@ =~= Seq::new(n as nat, |i: int| true));
    out
}

fn matches_original(doc: &str, start: usize, end: usize, original: &str) -> (r: bool)
    ensures
        r == (slice_of(doc@, start as int, end as int) == Some(original@)),
{
    match offset::slice(doc, start, end) {
        Some(t) => text::same(t, original),
        None => false,
    }
}

/// What is said when the text of a round was to be written to a file.
pub fn write_message(path: &str, kept: usize, total: usize, error: Option<&str>) -> (r: String)
    ensures
        r@ == match error {
            None => "已写回「"@ + label_of(path@) + "」（"@ + decimal(kept as nat) + "/"@ + decimal(
                total as nat,
            ) + " 块）—— Ctrl+B 可重排全文"@,
            Some(why) => "写回「"@ + label_of(path@) + "」失败："@ + why@,
        },
{
    let label = labels::short_label(path);
    match error {
        None => {
            let some = decimal::show_size(kept);
            let all = decimal::show_size(total);
            let mut out = text::three("已写回「", label.as_str(), "」（");
            out.append(some.as_str());
            out.append("/");
            out.append(all.as_str());
            out.append(" 块）—— Ctrl+B 可重排全文");
            out
        },
        Some(why) => {
            let mut out = text::three("写回「", label.as_str(), "」失败：");
            out.append(why);
            out
        },
    }
}

/// However a round goes, each block has a mark and the user looks at one that is there.
pub proof fn rounds_stay_sound(
    r: Round,
    scope: AiScope,
    label: Seq<char>,
    original: Seq<char>,
    reply: Result<Seq<char>, Seq<char>>,
    delta: int,
    doc: Seq<char>,
    yes: bool,
    no: bool,
)
    requires
        r.sound(),
    ensures
        closed().sound(),
        asked(scope, label, yes, no).sound(),
        rescoped(r, scope, label).sound(),
        sent(r, original, yes, no, label).sound(),
        answered(r, reply).sound(),
        (Round { selected: moved(r, delta), ..r }).sound(),
        toggled(r).sound(),
        settled(r, doc).sound(),
{
}

/// A text that has changed since the model was given it is left alone.
pub proof fn changed_texts_are_left_alone(
    a: Applied,
    r: Round,
    doc: Seq<char>,
    cursor: int,
    main_path: Seq<char>,
)
    requires
        is_applied(a, r, applied_text(r), doc, cursor, main_path),
        !in_place(r, doc),
    ensures
        !(a is Edit),
        !(a is Write),
{
}

/// A round of which nothing is accepted puts the text back as it was.
pub proof fn accepting_nothing_changes_nothing(
    r: Round,
    doc: Seq<char>,
    a: Applied,
    cursor: int,
    main_path: Seq<char>,
)
    requires
        r.stage == AiStage::Review,
        r.scope is Selection || r.scope is Paragraph,
        in_place(r, doc),
        forall|k: int| 0 <= k < r.accepted.len() ==> !r.accepted[k],
        r.accepted.len() == blocks(line_changes(r.original, r.result)).len(),
        is_applied(a, r, applied_text(r), doc, cursor, main_path),
    ensures
        a matches Applied::Edit { text, .. } && text@ == doc,
{
    let range = match r.scope {
        AiScope::Selection(range) => range,
        AiScope::Paragraph(range) => range,
        _ => (0..0),
    };
    let start = range.start as int;
    let end = range.end as int;
    assert(diff::rejects_all(r.accepted, blocks(line_changes(r.original, r.result)).len() as int));
    assert(applied_text(r) == r.original);
    offset::lemma_slice_bytes(doc, start, end);
    offset::lemma_floor_boundary(doc, start);
    offset::lemma_floor_boundary(doc, end);
    let b = bytes(doc);
    assert(b.take(start) + b.subrange(start, end) + b.skip(end) =~= b);
    if let Applied::Edit { text, .. } = a {
        offset::lemma_bytes_injective(text@, doc);
    }
}

/// An empty answer never comes to be looked at, let alone taken over.
pub proof fn empty_answers_are_refused(r: Round, reply: Seq<char>)
    requires
        trimmed(cleaned(reply)).len() == 0,
    ensures
        answered(r, Ok(reply)).stage == AiStage::Ask,
        answered(r, Ok(reply)).error is Some,
{
}

/// An answer that is taken over as it came puts its lines in the place of those that the
/// model was given, all of them and nothing else.
pub proof fn answers_are_taken_over_whole(r: Round, reply: Seq<char>)
    requires
        !(r.scope is Insert),
        trimmed(cleaned(reply)).len() > 0,
        cleaned(reply) == trimmed(cleaned(reply)),
        diff::is_line_diff(
            r.original,
            cleaned(reply),
            line_changes(r.original, cleaned(reply)),
        ),
    ensures
        answered(r, Ok(reply)).stage == AiStage::Review,
        diff::bare_lines(diff::line_tokens(applied_text(answered(r, Ok(reply)))))
            == diff::bare_lines(diff::line_tokens(cleaned(reply))),
{
    let new = cleaned(reply);
    let q = answered(r, Ok(reply));
    text::lemma_trimmed_ends(new);
    let c = line_changes(r.original, new);
    assert(q.accepted.len() == blocks(c).len());
    assert forall|k: int| 0 <= k < blocks(c).len() implies #[trigger] diff::accepts(
        q.accepted,
        k,
    ) by {
        assert(q.accepted[k]);
    }
    diff::accepting_everything_gives_the_new_lines(r.original, new, c, q.accepted);
}

/// Nothing outside the part that a round works on is touched: what stands before and after
/// it stays to the byte.
pub proof fn the_rest_of_the_document_stays(
    a: Applied,
    r: Round,
    doc: Seq<char>,
    cursor: int,
    main_path: Seq<char>,
    range: Range<usize>,
)
    requires
        is_applied(a, r, applied_text(r), doc, cursor, main_path),
        r.stage == AiStage::Review,
        in_place(r, doc),
        r.scope == AiScope::Selection(range) || r.scope == AiScope::Paragraph(range),
    ensures
        a matches Applied::Edit { text, .. } && {
            let (b, t) = (bytes(doc), bytes(text@));
            &&& range.start <= range.end <= b.len()
            &&& t.take(range.start as int) == b.take(range.start as int)
            &&& t.len() == range.start + bytes(applied_text(r)).len() + (b.len() - range.end)
            &&& t.skip(t.len() - (b.len() - range.end)) == b.skip(range.end as int)
            &&& t.subrange(range.start as int, t.len() - (b.len() - range.end)) == bytes(
                applied_text(r),
            )
        },
{
    let start = range.start as int;
    let end = range.end as int;
    offset::lemma_slice_bytes(doc, start, end);
    offset::lemma_floor_boundary(doc, start);
    offset::lemma_floor_boundary(doc, end);
    let b = bytes(doc);
    let m = bytes(applied_text(r));
    if let Applied::Edit { text, .. } = a {
        let t = bytes(text@);
        assert(t == b.take(start) + m + b.skip(end));
        assert(t.take(start) =~= b.take(start));
        assert(t.skip(start + m.len()) =~= b.skip(end));
        assert(t.subrange(start, start + m.len()) =~= m);
    }
}

/// An insertion leaves every character of the document: the answer stands between what was
/// before the place and what was behind it.
pub proof fn insertions_leave_the_document(
    a: Applied,
    r: Round,
    doc: Seq<char>,
    cursor: int,
    main_path: Seq<char>,
    at: usize,
)
    requires
        is_applied(a, r, applied_text(r), doc, cursor, main_path),
        r.stage == AiStage::Review,
        r.scope == (AiScope::Insert { at }),
    ensures
        a matches Applied::Edit { text, .. } && exists|before: Seq<char>, after: Seq<char>|
            before + after == doc && #[trigger] (before + r.result + after) == text@,
{
    if let Applied::Edit { text, .. } = a {
        ai_scope::inserting_keeps_the_document(doc, at, r.result, text@);
    }
}

/// Turning a mark over twice leaves it as it was, and no other mark is touched.
pub proof fn marks_are_turned_one_by_one(r: Round)
    requires
        r.selected < r.accepted.len(),
    ensures
        toggled(toggled(r)) == r,
        toggled(r).accepted[r.selected as int] == !r.accepted[r.selected as int],
        toggled(r).accepted.len() == r.accepted.len(),
        forall|k: int|
            0 <= k < r.accepted.len() && k != r.selected ==> toggled(r).accepted[k]
                == #[trigger] r.accepted[k],
        toggled(r).hunks == r.hunks,
        toggled(r).selected == r.selected,
{
    assert(toggled(toggled(r)).accepted =~= r.accepted);
}

/// Moving on by one and back again comes to every block, and stays among them.
pub proof fn every_block_can_be_looked_at(r: Round)
    requires
        r.hunks.len() > 0,
        r.selected < r.hunks.len(),
    ensures
        r.selected + 1 < r.hunks.len() ==> moved(r, 1) == r.selected + 1,
        r.selected + 1 == r.hunks.len() ==> moved(r, 1) == r.selected,
        r.selected > 0 ==> moved(r, -1) == r.selected - 1,
        r.selected == 0 ==> moved(r, -1) == 0,
{
}

/// The answer of a worker that went away.
pub const LOST_WORKER: &'static str = "AI 线程意外结束";

/// What is said when the user calls a round off.
pub const CANCELLED_MESSAGE: &'static str = "已取消 AI 编辑";

/// What is said when a round was not sent for want of a key.
pub const NO_KEY_MESSAGE: &'static str = "AI 没配 Key：AI 菜单 → AI 设置…";

/// What is said when a round was not taken over because its text has changed.
pub const STALE_MESSAGE: &'static str = "AI：目标文字已变化，未应用";

/// What is said when a task is sent.
pub fn task_message(task: AiTask, label: &str) -> (r: String)
    ensures
        r@ == "AI 任务："@ + task.label_text() + "（"@ + label@ + "）"@,
{
    let mut out = text::both("AI 任务：", task.label());
    out.append("（");
    out.append(label);
    out.append("）");
    out
}

/// What a round is sent holds the user's wish and the text: the wish comes last, behind the
/// hint for an insertion, and a text that is short enough is given whole.
pub proof fn rounds_send_the_wish_and_the_text(
    s: Start,
    r: Round,
    instruction: Seq<char>,
    hint: Seq<char>,
    raw: Seq<char>,
    history: Seq<(bool, String)>,
)
    requires
        is_start(s, r, instruction, hint, Ok(raw), history),
        r.stage == AiStage::Ask,
        trimmed(instruction).len() > 0,
    ensures
        s matches Start::Go { messages, original } && {
            let m = messages_of(messages@);
            &&& original@ == raw
            &&& m.len() >= 3
            &&& m.last() == ("user"@, if r.scope is Insert {
                hint + "\n\n"@ + trimmed(instruction)
            } else {
                trimmed(instruction)
            })
            &&& raw.len() <= AI_EDIT_CONTEXT_LIMIT ==> m[1] == ("user"@, "【当前文档上下文】\n"@ + raw)
        },
{
    if let Start::Go { messages, original } = s {
        ai::conversations_are_bounded(
            context_of(raw),
            history,
            instruction_of(r.scope, hint, instruction),
        );
    }
}

/// The model is given the part that it is to work on, to the byte: what is selected, the
/// paragraph, or the document.
pub proof fn the_model_is_given_its_part(
    doc: Seq<char>,
    main_path: Seq<char>,
    file: Result<Seq<char>, Seq<char>>,
    range: Range<usize>,
)
    ensures
        scope_content(AiScope::Document, doc, main_path, file) == Ok::<Seq<char>, Seq<char>>(doc),
        scope_content(AiScope::Selection(range), doc, main_path, file) matches Ok(t) ==> range.start
            <= range.end <= bytes(doc).len() && bytes(t) == bytes(doc).subrange(
            range.start as int,
            range.end as int,
        ),
        scope_content(AiScope::Paragraph(range), doc, main_path, file) matches Ok(t) ==> range.start
            <= range.end <= bytes(doc).len() && bytes(t) == bytes(doc).subrange(
            range.start as int,
            range.end as int,
        ),
{
    if slice_of(doc, range.start as int, range.end as int) is Some {
        offset::lemma_slice_bytes(doc, range.start as int, range.end as int);
    }
}

/// A round counts as in place exactly where the part that it works on still says, to the
/// byte, what the model was given.
pub proof fn rounds_are_in_place_where_the_text_is_the_same(
    r: Round,
    doc: Seq<char>,
    range: Range<usize>,
    before: Seq<char>,
    after: Seq<char>,
)
    requires
        r.scope == AiScope::Selection(range) || r.scope == AiScope::Paragraph(range),
    ensures
        in_place(r, doc) ==> range.start <= range.end <= bytes(doc).len() && bytes(doc).subrange(
            range.start as int,
            range.end as int,
        ) == bytes(r.original),
        doc == before + r.original + after && range.start == bytes(before).len() && range.end
            == bytes(before + r.original).len() ==> in_place(r, doc),
{
    let (start, end) = (range.start as int, range.end as int);
    if in_place(r, doc) {
        offset::lemma_slice_bytes(doc, start, end);
    }
    if doc == before + r.original + after && start == bytes(before).len() && end == bytes(
        before + r.original,
    ).len() {
        offset::lemma_bytes_concat(before, r.original);
        offset::lemma_bytes_concat(before + r.original, after);
        offset::lemma_prefix_boundary(before, r.original + after);
        assert(doc =~= before + (r.original + after));
        offset::lemma_prefix_boundary(before + r.original, after);
        assert(slice_of(doc, start, end) is Some);
        offset::lemma_slice_bytes(doc, start, end);
        assert(bytes(doc).subrange(start, end) =~= bytes(r.original));
        offset::lemma_bytes_injective(slice_of(doc, start, end)->0, r.original);
    }
}

/// A round is sent with a key, or to a service on this machine without one; without either
/// it goes back to the question and says why. What the user chose is kept either way.
pub proof fn rounds_need_a_key_or_a_service_of_their_own(
    r: Round,
    original: Seq<char>,
    has_key: bool,
    local: bool,
    base_url: Seq<char>,
)
    ensures
        has_key || local ==> sent(r, original, has_key, local, base_url).stage == AiStage::Running
            && sent(r, original, has_key, local, base_url).original == original && sent(
            r,
            original,
            has_key,
            local,
            base_url,
        ).error is None,
        !has_key && !local ==> sent(r, original, has_key, local, base_url).stage == AiStage::Ask
            && sent(r, original, has_key, local, base_url).error is Some,
        sent(r, original, has_key, local, base_url).scope == r.scope,
{
}

/// A failure leads back to the question, with its reason, and nothing of the round is lost.
pub proof fn failures_lead_back_to_the_question(r: Round, why: Seq<char>)
    ensures
        answered(r, Err(why)).stage == AiStage::Ask,
        answered(r, Err(why)).error == Some(why),
        answered(r, Err(why)).scope == r.scope,
        answered(r, Err(why)).original == r.original,
        !answered(r, Err(why)).waiting,
{
}

} // verus!
