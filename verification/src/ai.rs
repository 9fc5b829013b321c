//! Asking a language model for text: prompts, the request, and the reply.

use vstd::prelude::*;
use vstd::string::*;

use crate::decimal;
use crate::decimal::{decimal, signed};
use crate::json;
use crate::json::{item_of, json_quoted, json_text, member_of, string_of};
use crate::offset::bytes;
use crate::text;
use crate::text::{begins, occurs, optional, said, search, trimmed};

verus! {

/// The endpoint that is asked where none is set.
pub const AI_BASE_URL_DEFAULT: &'static str = "https://api.deepseek.com/chat/completions";

/// The model that is asked for where none is set.
pub const AI_MODEL_DEFAULT: &'static str = "deepseek-flash";

/// How many characters of context a request holds at most.
pub const AI_EDIT_CONTEXT_LIMIT: usize = 12000;

/// How many turns of a conversation are sent along.
pub const HISTORY_TURNS: usize = 6;

/// A task that needs no instruction.
#[derive(Clone, Copy, PartialEq, Eq, Debug, Structural)]
pub enum AiTask {
    /// Mends what does not compile.
    SyntaxFix,
    /// Proofreads Chinese.
    Proofread,
    /// Makes terms uniform.
    Terminology,
    /// Chinese to English.
    TranslateToEnglish,
    /// English to Chinese.
    TranslateToChinese,
}

impl AiTask {
    /// What the task is called.
    pub open spec fn label_text(self) -> Seq<char> {
        match self {
            AiTask::SyntaxFix => "语法检查并修复"@,
            AiTask::Proofread => "中文校对"@,
            AiTask::Terminology => "术语一致性"@,
            AiTask::TranslateToEnglish => "中译英"@,
            AiTask::TranslateToChinese => "英译中"@,
        }
    }

    /// What the task is called.
    pub fn label(self) -> (r: &'static str)
        ensures
            r@ == self.label_text(),
    {
        match self {
            AiTask::SyntaxFix => "语法检查并修复",
            AiTask::Proofread => "中文校对",
            AiTask::Terminology => "术语一致性",
            AiTask::TranslateToEnglish => "中译英",
            AiTask::TranslateToChinese => "英译中",
        }
    }
}

/// The environment's value as it stands where it is not blank, or else the
/// setting trimmed where that is not blank, or else the default.
pub open spec fn resolved(
    from_env: Option<Seq<char>>,
    setting: Option<Seq<char>>,
    default: Seq<char>,
) -> Seq<char> {
    if from_env matches Some(e) && trimmed(e).len() > 0 {
        from_env->0
    } else if setting matches Some(s) && trimmed(s).len() > 0 {
        trimmed(setting->0)
    } else {
        default
    }
}

fn resolve(from_env: Option<&str>, setting: Option<&str>, default: &str) -> (r: String)
    ensures
        r@ == resolved(said(from_env), said(setting), default@),
{
    if let Some(e) = from_env {
        if !text::is_blank(e) {
            return e.to_owned();
        }
    }
    if let Some(s) = setting {
        if !text::is_blank(s) {
            return text::trim(s);
        }
    }
    default.to_owned()
}

/// The endpoint: environment, then setting, then default.
pub fn resolve_base_url(from_env: Option<&str>, setting: Option<&str>) -> (r: String)
    ensures
        r@ == resolved(said(from_env), said(setting), AI_BASE_URL_DEFAULT@),
{
    resolve(from_env, setting, AI_BASE_URL_DEFAULT)
}

/// The model: environment, then setting, then default.
pub fn resolve_model(from_env: Option<&str>, setting: Option<&str>) -> (r: String)
    ensures
        r@ == resolved(said(from_env), said(setting), AI_MODEL_DEFAULT@),
{
    resolve(from_env, setting, AI_MODEL_DEFAULT)
}

/// A service on this machine.
pub open spec fn is_local(url: Seq<char>) -> bool {
    occurs(url, "127.0.0.1"@) || occurs(url, "localhost"@) || occurs(url, "0.0.0.0"@)
}

/// Whether the endpoint is a service on this machine, which needs no key.
pub fn is_local_endpoint(url: &str) -> (r: bool)
    ensures
        r == is_local(url@),
{
    text::contains(url, "127.0.0.1") || text::contains(url, "localhost") || text::contains(
        url,
        "0.0.0.0",
    )
}

/// The key in a credentials file.
pub open spec fn stored_key(file: Option<Seq<char>>) -> Option<Seq<char>> {
    string_of(member_of(member_of(file, "deepseek"@), "key"@))
}

/// The key to send: the environment's as it stands, then the setting trimmed,
/// then, for a DeepSeek endpoint, the one in the credentials file.
pub open spec fn key_for(
    from_env: Option<Seq<char>>,
    endpoint: Seq<char>,
    setting: Option<Seq<char>>,
    file: Option<Seq<char>>,
) -> Option<Seq<char>> {
    if from_env matches Some(e) && trimmed(e).len() > 0 {
        Some(from_env->0)
    } else if setting matches Some(s) && trimmed(s).len() > 0 {
        Some(trimmed(setting->0))
    } else if occurs(endpoint, "deepseek"@) {
        stored_key(file)
    } else {
        None
    }
}

/// The key to send. `auth_file` is what the credentials file holds, if it could
/// be read.
pub fn api_key(
    from_env: Option<&str>,
    endpoint: &str,
    from_settings: Option<&str>,
    auth_file: &Option<String>,
) -> (r: Option<String>)
    ensures
        optional(r) == key_for(
            said(from_env),
            endpoint@,
            said(from_settings),
            optional(*auth_file),
        ),
{
    if let Some(e) = from_env {
        if !text::is_blank(e) {
            return Some(e.to_owned());
        }
    }
    if let Some(s) = from_settings {
        if !text::is_blank(s) {
            return Some(text::trim(s));
        }
    }
    if text::contains(endpoint, "deepseek") {
        let entry = json::get(auth_file, "deepseek");
        let key = json::get(&entry, "key");
        return json::as_string(&key);
    }
    None
}

/// What the model is told of its part in an edit.
pub const AI_EDIT_SYSTEM: &'static str = "你是嵌入在 Typst 编辑器里的写作助手。用户会给你一段文档上下文和一条指令。\
请只输出可以直接放进文档的 Typst 内容本身：不要解释、不要客套、不要用代码块围栏包裹。\
需要修改时给出修改后的完整片段；需要新增时只给出新增内容。排版风格与上下文保持一致。";

/// Messages as texts: who speaks, and what.
pub open spec fn messages_of(v: Seq<(String, String)>) -> Seq<(Seq<char>, Seq<char>)> {
    v.map_values(|m: (String, String)| (m.0@, m.1@))
}

/// A turn of the conversation as a message.
pub open spec fn turn(t: (bool, String)) -> (Seq<char>, Seq<char>) {
    (
        if t.0 {
            "user"@
        } else {
            "assistant"@
        },
        t.1@,
    )
}

/// The last turns of the conversation, as many as are sent along.
pub open spec fn recent(history: Seq<(bool, String)>) -> Seq<(bool, String)> {
    if history.len() <= HISTORY_TURNS * 2 {
        history
    } else {
        history.skip(history.len() - HISTORY_TURNS * 2)
    }
}

/// The messages of an edit: what the model is told, the context, the last turns
/// of the conversation, and the instruction.
pub open spec fn edit_conversation(
    context: Seq<char>,
    history: Seq<(bool, String)>,
    instruction: Seq<char>,
) -> Seq<(Seq<char>, Seq<char>)> {
    seq![("system"@, AI_EDIT_SYSTEM@), ("user"@, "【当前文档上下文】\n"@ + context)] + recent(
        history,
    ).map_values(|t: (bool, String)| turn(t)) + seq![("user"@, instruction)]
}

/// However long a conversation has become, an edit sends a bounded part of it: what
/// the model is told comes first, then the context, then at most the last turns,
/// unchanged and in order, and the instruction comes last.
pub proof fn conversations_are_bounded(
    context: Seq<char>,
    history: Seq<(bool, String)>,
    instruction: Seq<char>,
)
    ensures
        edit_conversation(context, history, instruction).len() <= 2 * HISTORY_TURNS + 3,
        edit_conversation(context, history, instruction)[0] == ("system"@, AI_EDIT_SYSTEM@),
        edit_conversation(context, history, instruction)[1].0 == "user"@,
        edit_conversation(context, history, instruction).last() == ("user"@, instruction),
        forall|k: int|
            0 <= k < history.len() && history.len() - 2 * HISTORY_TURNS <= k ==> edit_conversation(
                context,
                history,
                instruction,
            )[edit_conversation(context, history, instruction).len() - 1 - (history.len() - k)]
                == turn(#[trigger] history[k]),
{
    let sent = edit_conversation(context, history, instruction);
    let last = recent(history);
    assert forall|k: int|
        0 <= k < history.len() && history.len() - 2 * HISTORY_TURNS <= k implies sent[sent.len() - 1
        - (history.len() - k)] == turn(#[trigger] history[k]) by {
        assert(last[last.len() - (history.len() - k)] == history[k]);
    }
}

/// The messages of an edit. `history` says of each turn whether it is the user's.
pub fn edit_messages(context: &str, history: &[(bool, String)], instruction: &str) -> (r: Vec<
    (String, String),
>)
    ensures
        messages_of(r@) == edit_conversation(context@, history@, instruction@),
{
    let mut out: Vec<(String, String)> = Vec::new();
    out.push(("system".to_owned(), AI_EDIT_SYSTEM.to_owned()));
    let mut given = "【当前文档上下文】\n".to_owned();
    given.append(context);
    out.push(("user".to_owned(), given));
    let n: usize = history.len();
    let start: usize = if n <= HISTORY_TURNS * 2 {
        0
    } else {
        n - HISTORY_TURNS * 2
    };
    let ghost turns = recent(history@).map_values(|t: (bool, String)| turn(t));
    let ghost head = messages_of(out@);
    assert(messages_of(out@) =~= head + turns.take(0));
    let mut i: usize = start;
    while i < n
        invariant
            start <= i <= n,
            n == history@.len(),
            start == history@.len() - recent(history@).len(),
            turns == recent(history@).map_values(|t: (bool, String)| turn(t)),
            messages_of(out@) == head + turns.take(i - start),
        decreases n - i,
    {
        let ghost before = out@;
        let who = if history[i].0 {
            "user"
        } else {
            "assistant"
        };
        out.push((who.to_owned(), history[i].1.clone()));
        proof {
            assert(recent(history@)[i - start] == history@[i as int]);
            assert(messages_of(out@) =~= messages_of(before).push(turns[i - start]));
            assert(messages_of(out@) =~= head + turns.take(i + 1 - start));
        }
        i += 1;
    }
    let ghost before = out@;
    out.push(("user".to_owned(), instruction.to_owned()));
    proof {
        assert(turns.take(turns.len() as int) =~= turns);
        assert(head =~= seq![
            ("system"@, AI_EDIT_SYSTEM@),
            ("user"@, "【当前文档上下文】\n"@ + context@),
        ]);
        assert(messages_of(out@) =~= head + turns + seq![("user"@, instruction@)]);
    }
    out
}

/// What a translator is told of its part.
pub const TRANSLATOR: &'static str =
    "你是一位专业的中英双语翻译。严格按用户要求输出「中文在上、英文在下」的双语对照内容，\
必须同时保留中文与英文两种语言，不得省略任何一种、不得只给一种语言；英文尽量贴近/保留原文。\
不要解释，不要代码块。";

/// What an editor is told of its part.
pub const WRITER: &'static str =
    "你是一位专业的 Typst 文档写作助手。只完成指定的任务，直接从第一行开始输出修改/修复后的\
完整 Typst 源文件本身，禁止输出任何解释、建议或多余文字，也不要包裹在代码块里。\
非目标内容一律保持原样。";

pub const ASK_FIX: &'static str =
    "下面是一个 Typst 源文件，它编译报错。请只修复导致编译错误的部分，其它内容不得改动。\n\n【编译错误】\n";

pub const ASK_PROOFREAD: &'static str =
    "下面是一个 Typst 源文件。请仅作中文校对：修正错别字、明显病句、标点与全半角错误，\
保留原意与文档结构，不要改动 Typst 标记、公式与排版逻辑。\n\n【源文件】\n";

pub const ASK_TERMS: &'static str =
    "下面是一个 Typst 源文件。请检查并统一全文术语：把同一概念的多种叫法统一成一致写法，\
不改动其它任何内容。\n\n【源文件】\n";

pub const ASK_ENGLISH: &'static str =
    "下面是一段【中文】文本，请翻译成【英文】。以「中文在上、英文在下」的双语对照格式输出：\
第一部分给出中文原文；第二部分给出对应的英文翻译，确保两种语言都保留。\
英文表达地道、忠实原文、保留段落结构。只输出双语对照内容，不要任何解释。\n\n【源文本】\n";

pub const ASK_CHINESE: &'static str =
    "下面是一段【英文】文本，请翻译成【中文】。以「中文在上、英文在下」的双语对照格式输出：\
第一部分给出中文翻译；第二部分【请逐字原样保留下方这段英文原文，不要翻译回、不要改写、\
不要省略】，紧跟在中文下面。确保输出同时包含中文和英文两种语言。\
只输出双语对照内容，不要任何解释。\n\n【源文本】\n";

/// What the model is told of its part in a task.
pub open spec fn role_text(task: AiTask) -> Seq<char> {
    match task {
        AiTask::TranslateToEnglish | AiTask::TranslateToChinese => TRANSLATOR@,
        _ => WRITER@,
    }
}

/// What the model is asked to do in a task, up to the source.
pub open spec fn ask_text(task: AiTask, errors: Seq<char>) -> Seq<char> {
    match task {
        AiTask::SyntaxFix => ASK_FIX@ + errors + "\n\n【源文件】\n"@,
        AiTask::Proofread => ASK_PROOFREAD@,
        AiTask::Terminology => ASK_TERMS@,
        AiTask::TranslateToEnglish => ASK_ENGLISH@,
        AiTask::TranslateToChinese => ASK_CHINESE@,
    }
}

/// The prompt for a task on `source`; `errors` are what the compiler says of it.
pub fn task_prompt(task: AiTask, source: &str, errors: &str) -> (r: String)
    ensures
        r@ == role_text(task) + "\n\n"@ + (ask_text(task, errors@) + source@),
{
    let role = match task {
        AiTask::TranslateToEnglish | AiTask::TranslateToChinese => TRANSLATOR,
        _ => WRITER,
    };
    let mut out = role.to_owned();
    out.append("\n\n");
    let ghost head = out@;
    match task {
        AiTask::SyntaxFix => {
            out.append(ASK_FIX);
            out.append(errors);
            out.append("\n\n【源文件】\n");
        },
        AiTask::Proofread => {
            out.append(ASK_PROOFREAD);
        },
        AiTask::Terminology => {
            out.append(ASK_TERMS);
        },
        AiTask::TranslateToEnglish => {
            out.append(ASK_ENGLISH);
        },
        AiTask::TranslateToChinese => {
            out.append(ASK_CHINESE);
        },
    }
    assert(out@ =~= head + ask_text(task, errors@));
    out.append(source);
    assert(out@ =~= head + (ask_text(task, errors@) + source@));
    out
}

/// A text of more than `limit` characters as its first and last `limit / 2`, with
/// a note between them of how many were left out.
pub open spec fn shortened(s: Seq<char>, limit: nat) -> Seq<char> {
    let half = (limit / 2) as int;
    s.take(half) + ("\n……（此处省略 "@ + decimal((s.len() - 2 * half) as nat) + " 字）……\n"@) + s.skip(
        s.len() - half,
    )
}

/// A shortened text still begins and ends as the text did.
pub proof fn shortened_texts_keep_both_ends(s: Seq<char>, limit: nat)
    requires
        s.len() > limit,
    ensures
        shortened(s, limit).len() >= 2 * (limit / 2),
        forall|i: int|
            0 <= i < limit / 2 ==> {
                &&& #[trigger] shortened(s, limit)[i] == s[i]
                &&& shortened(s, limit)[shortened(s, limit).len() - 1 - i] == s[s.len() - 1 - i]
            },
{
    let half = (limit / 2) as int;
    let r = shortened(s, limit);
    assert forall|i: int| 0 <= i < half implies {
        &&& #[trigger] r[i] == s[i]
        &&& r[r.len() - 1 - i] == s[s.len() - 1 - i]
    } by {
        assert(r[r.len() - 1 - i] == s.skip(s.len() - half)[half - 1 - i]);
    }
}

/// Shortens a text of more than `limit` characters. Says whether it did.
pub fn truncate_context(text: &str, limit: usize) -> (r: (String, bool))
    ensures
        r.1 == (text@.len() > limit),
        r.0@ == if text@.len() > limit {
            shortened(text@, limit as nat)
        } else {
            text@
        },
{
    let v = text::chars_of(text);
    let count: usize = v.len();
    if count <= limit {
        return (text.to_owned(), false);
    }
    let half: usize = limit / 2;
    let mut out = text::text_of(&v, 0, half);
    let dropped = decimal::show_size(count - 2 * half);
    let tail = text::text_of(&v, count - half, count);
    let mut note = "\n……（此处省略 ".to_owned();
    note.append(dropped.as_str());
    note.append(" 字）……\n");
    assert(out@ =~= v@.take(half as int));
    assert(tail@ =~= v@.skip(count - half));
    out.append(note.as_str());
    out.append(tail.as_str());
    (out, true)
}

/// What a reply holds for the document: what stands between its first code fence
/// and the next, or after the line of an unclosed fence, or all of it; trimmed.
pub open spec fn cleaned(reply: Seq<char>) -> Seq<char> {
    let t = trimmed(reply);
    let fence = "```"@;
    let open = search(t, fence, 0);
    let newline = search(t, "\n"@, open + 3);
    let start = if newline >= 0 {
        newline + 1
    } else {
        open + 3
    };
    let close = search(t, fence, start);
    if open < 0 {
        t
    } else if close >= 0 {
        trimmed(t.subrange(start, close))
    } else if newline >= 0 {
        trimmed(t.skip(start))
    } else {
        t
    }
}

/// What a reply holds for the document.
pub fn clean_source(reply: &str) -> (r: String)
    ensures
        r@ == cleaned(reply@),
{
    let trim = text::trim(reply);
    let t = text::chars_of(trim.as_str());
    let n: usize = t.len();
    let fence = text::chars_of("```");
    let line = text::chars_of("\n");
    proof {
        reveal_strlit("```");
        reveal_strlit("\n");
    }
    if let Some(open) = text::find(&t, &fence, 0) {
        let newline = text::find(&t, &line, open + 3);
        let start: usize = match newline {
            Some(i) => i + 1,
            None => open + 3,
        };
        if let Some(close) = text::find(&t, &fence, start) {
            let (a, b) = text::trim_bounds(&t, start, close);
            return text::text_of(&t, a, b);
        }
        if let Some(_) = newline {
            let (a, b) = text::trim_bounds(&t, start, n);
            assert(t@.subrange(start as int, n as int) =~= t@.skip(start as int));
            return text::text_of(&t, a, b);
        }
    }
    trim
}

/// Nothing in `part` that stands at `at` in `whole` is found there and not in `part`.
proof fn lemma_occurs_in_part(whole: Seq<char>, part: Seq<char>, at: int, pat: Seq<char>, j: int)
    requires
        0 <= at,
        at + part.len() <= whole.len(),
        whole.subrange(at, at + part.len()) == part,
        at <= j,
        j + pat.len() <= at + part.len(),
    ensures
        text::occurs_at(whole, pat, j) == text::occurs_at(part, pat, j - at),
{
    assert(part.subrange(j - at, j - at + pat.len()) =~= whole.subrange(j, j + pat.len()));
}

/// A reply without a code fence is taken over whole: nothing but the whitespace at its two
/// ends goes.
pub proof fn replies_without_a_fence_are_only_trimmed(reply: Seq<char>)
    requires
        !occurs(reply, "```"@),
    ensures
        cleaned(reply) == trimmed(reply),
{
    let t = trimmed(reply);
    let fence = "```"@;
    reveal_strlit("```");
    text::trimming_takes_away_only_whitespace(reply);
    let (before, after) = choose|before: Seq<char>, after: Seq<char>|
        text::all_space(before) && text::all_space(after) && #[trigger] (before + t + after)
            == reply;
    assert(reply.subrange(before.len() as int, (before.len() + t.len()) as int) =~= t);
    assert forall|j: int| 0 <= j implies !#[trigger] text::occurs_at(t, fence, j) by {
        if text::occurs_at(t, fence, j) {
            lemma_occurs_in_part(reply, t, before.len() as int, fence, before.len() + j);
            assert(text::occurs_at(reply, fence, before.len() + j));
        }
    }
    text::lemma_search_none(t, fence, 0);
}

/// Where the first fence of a text opens, of which `x` stands before it.
proof fn lemma_fence_opens(t: Seq<char>, x: Seq<char>, tag: Seq<char>, rest: Seq<char>)
    requires
        t == x + "```"@ + tag + "\n"@ + rest,
        !occurs(x, "```"@),
        forall|i: int| 0 <= i < tag.len() ==> #[trigger] tag[i] != '\n',
    ensures
        search(t, "```"@, 0) >= 0,
        search(t, "\n"@, search(t, "```"@, 0) + 3) == x.len() + 3 + tag.len(),
        t.skip((x.len() + 4 + tag.len()) as int) == rest,
{
    let fence = "```"@;
    let line = "\n"@;
    reveal_strlit("```");
    reveal_strlit("\n");
    let n = x.len() as int;
    assert(t.subrange(n, n + 3) =~= fence);
    assert(text::occurs_at(t, fence, n));
    text::lemma_search(t, fence, 0);
    let open = search(t, fence, 0);
    assert(0 <= open <= n);
    assert(open + 3 > n) by {
        if open + 3 <= n {
            assert(t.subrange(0, n) =~= x);
            lemma_occurs_in_part(t, x, 0, fence, open);
            assert(text::occurs_at(x, fence, open));
        }
    }
    let at = n + 3 + tag.len();
    assert(t.subrange(at, at + 1) =~= line);
    assert forall|j: int| open + 3 <= j < at implies !#[trigger] text::occurs_at(t, line, j) by {
        if text::occurs_at(t, line, j) {
            assert(t.subrange(j, j + 1)[0] == '\n');
            assert(t[j] == '\n');
            if j < n + 3 {
                assert(t[j] == fence[j - n]);
            } else {
                assert(t[j] == tag[j - n - 3]);
            }
        }
    }
    text::lemma_search_is(t, line, open + 3, at);
    assert(t.skip(at + 1) =~= rest);
}

proof fn lemma_start_without_fence(before: Seq<char>)
    requires
        !occurs(before, "```"@),
    ensures
        !occurs(text::trim_start(before), "```"@),
{
    let fence = "```"@;
    let x = text::trim_start(before);
    text::lemma_trim_start(before);
    let cut = before.len() - x.len();
    assert(before.subrange(cut, cut + x.len()) =~= x);
    assert forall|j: int| !#[trigger] text::occurs_at(x, fence, j) by {
        if text::occurs_at(x, fence, j) {
            lemma_occurs_in_part(before, x, cut, fence, cut + j);
            assert(text::occurs_at(before, fence, cut + j));
        }
    }
}

/// Where the fence of a text closes, of which `head` stands before what is fenced.
proof fn lemma_fence_closes(t: Seq<char>, head: Seq<char>, body: Seq<char>, after: Seq<char>)
    requires
        t == head + body + "```"@ + after,
        !occurs(body, "```"@),
        body.len() > 0 ==> body.last() != '`',
    ensures
        search(t, "```"@, head.len() as int) == head.len() + body.len(),
        t.subrange(head.len() as int, (head.len() + body.len()) as int) == body,
{
    let fence = "```"@;
    reveal_strlit("```");
    let start = head.len() as int;
    let close = start + body.len();
    assert(t.subrange(start, close) =~= body);
    assert(t.subrange(close, close + 3) =~= fence);
    assert forall|j: int| start <= j < close implies !#[trigger] text::occurs_at(t, fence, j) by {
        if text::occurs_at(t, fence, j) {
            if j + 3 <= close {
                lemma_occurs_in_part(t, body, start, fence, j);
                assert(text::occurs_at(body, fence, j - start));
            } else {
                assert(t[close - 1] == t.subrange(j, j + 3)[close - 1 - j]);
                assert(t[close - 1] == body.last());
            }
        }
    }
    text::lemma_search_is(t, fence, start, close);
}

/// A reply with a fenced piece is taken over as that piece, whatever stands before and
/// after it and whatever follows the opening fence on its line.
pub proof fn fenced_replies_give_what_is_fenced(
    before: Seq<char>,
    tag: Seq<char>,
    body: Seq<char>,
    after: Seq<char>,
)
    requires
        !occurs(before, "```"@),
        !occurs(body, "```"@),
        body.len() > 0 ==> body.last() != '`',
        forall|i: int| 0 <= i < tag.len() ==> #[trigger] tag[i] != '\n',
    ensures
        cleaned(before + "```"@ + tag + "\n"@ + body + "```"@ + after) == trimmed(body),
{
    let fence = "```"@;
    let line = "\n"@;
    reveal_strlit("```");
    reveal_strlit("\n");
    let reply = before + fence + tag + line + body + fence + after;
    let inside = fence + tag + line + body + fence;
    let x = text::trim_start(before);
    let y = text::trim_end(after);
    assert(reply =~= before + inside + after);
    text::lemma_trimmed_around(before, inside, after);
    let t = trimmed(reply);
    let rest = body + fence + y;
    assert(t =~= x + fence + tag + line + rest);
    lemma_start_without_fence(before);
    lemma_fence_opens(t, x, tag, rest);
    let head = x + fence + tag + line;
    assert(t =~= head + body + fence + y);
    lemma_fence_closes(t, head, body, y);
}

/// A reply whose fence is never closed is taken over from the line after the fence on.
pub proof fn unclosed_fences_give_what_follows(before: Seq<char>, tag: Seq<char>, rest: Seq<char>)
    requires
        !occurs(before, "```"@),
        !occurs(rest, "```"@),
        trimmed(rest).len() > 0,
        forall|i: int| 0 <= i < tag.len() ==> #[trigger] tag[i] != '\n',
    ensures
        cleaned(before + "```"@ + tag + "\n"@ + rest) == trimmed(rest),
{
    let fence = "```"@;
    let line = "\n"@;
    reveal_strlit("```");
    reveal_strlit("\n");
    let reply = before + fence + tag + line + rest;
    let m = trimmed(rest);
    text::trimming_takes_away_only_whitespace(rest);
    let (a, b) = choose|a: Seq<char>, b: Seq<char>|
        text::all_space(a) && text::all_space(b) && #[trigger] (a + m + b) == rest;
    let inside = fence + tag + line + a + m;
    assert(reply =~= before + inside + b);
    assert(inside.last() == m.last());
    text::lemma_trimmed_around(before, inside, b);
    text::lemma_trim_end(b);
    text::lemma_trim_start(a);
    assert(text::trim_end(b).len() == 0) by {
        if text::trim_end(b).len() > 0 {
            assert(b[text::trim_end(b).len() - 1] == text::trim_end(b).last());
        }
    }
    assert(text::trim_start(a).len() == 0) by {
        if text::trim_start(a).len() > 0 {
            assert(a[a.len() - text::trim_start(a).len()] == text::trim_start(a)[0]);
        }
    }
    let x = text::trim_start(before);
    let t = trimmed(reply);
    let left = a + m;
    assert(t =~= x + fence + tag + line + left);
    lemma_start_without_fence(before);
    lemma_fence_opens(t, x, tag, left);
    let start = (x.len() + 4 + tag.len()) as int;
    assert(t.subrange(start, start + left.len()) =~= left);
    assert(rest.subrange(0, left.len() as int) =~= left);
    assert forall|j: int| start <= j implies !#[trigger] text::occurs_at(t, fence, j) by {
        if text::occurs_at(t, fence, j) {
            lemma_occurs_in_part(t, left, start, fence, j);
            lemma_occurs_in_part(rest, left, 0, fence, j - start);
            assert(text::occurs_at(rest, fence, j - start));
        }
    }
    text::lemma_search_none(t, fence, start);
    assert(left =~= a + m + Seq::<char>::empty());
    text::lemma_trimmed_around(a, m, Seq::empty());
    assert(trimmed(left) =~= m);
}

/// The data of a line of an event stream, where it has some.
pub open spec fn data_of(line: Seq<char>) -> Option<Seq<char>> {
    let data = trimmed(line.skip(5));
    if !begins(line, "data:"@) || data.len() == 0 || data == "[DONE]"@ {
        None
    } else {
        Some(data)
    }
}

/// The data of a line of an event stream, where it has some.
pub fn sse_data(line: &str) -> (r: Option<String>)
    ensures
        optional(r) == data_of(line@),
{
    proof {
        reveal_strlit("data:");
    }
    if !text::starts_with(line, "data:") {
        return None;
    }
    let v = text::chars_of(line);
    let n: usize = v.len();
    let (a, b) = text::trim_bounds(&v, 5, n);
    assert(v@.subrange(5, n as int) =~= line@.skip(5));
    let data = text::text_of(&v, a, b);
    if a == b || text::same(data.as_str(), "[DONE]") {
        return None;
    }
    Some(data)
}

/// What a chunk of the stream adds to the text and to the reasoning.
pub open spec fn delta_of(data: Seq<char>) -> Option<(Option<Seq<char>>, Option<Seq<char>>)> {
    match member_of(item_of(json::json_member(data, "choices"@), 0), "delta"@) {
        Some(d) => Some(
            (
                string_of(json::json_member(d, "content"@)),
                string_of(json::json_member(d, "reasoning_content"@)),
            ),
        ),
        None => None,
    }
}

/// An optional pair of optional strings as texts.
pub open spec fn delta_texts(d: Option<(Option<String>, Option<String>)>) -> Option<
    (Option<Seq<char>>, Option<Seq<char>>),
> {
    match d {
        Some(p) => Some((optional(p.0), optional(p.1))),
        None => None,
    }
}

/// What a line of the stream adds to the text and to the reasoning. A line that
/// is not such a chunk gives nothing.
pub fn parse_sse_delta(line: &str) -> (r: Option<(Option<String>, Option<String>)>)
    ensures
        delta_texts(r) == match data_of(line@) {
            Some(data) => delta_of(data),
            None => None,
        },
{
    let data = match sse_data(line) {
        Some(d) => d,
        None => {
            return None;
        },
    };
    let choices = json::member(data.as_str(), "choices");
    let first = json::nth(&choices, 0);
    let delta = json::get(&first, "delta");
    match delta {
        Some(d) => {
            let content = json::member(d.as_str(), "content");
            let reasoning = json::member(d.as_str(), "reasoning_content");
            Some((json::as_string(&content), json::as_string(&reasoning)))
        },
        None => None,
    }
}

/// What an exit code of curl means.
pub open spec fn curl_hint_text(code: int) -> Seq<char> {
    if code == 6 {
        "域名解析失败（端点写错了？）"@
    } else if code == 7 {
        "连不上端点（服务没起？端口/地址对不对？）"@
    } else if code == 28 {
        "请求超时（网络慢，或模型想太久）"@
    } else if code == 35 {
        "TLS 握手失败（代理/防火墙？）"@
    } else if code == 60 {
        "证书校验失败（自签名证书？）"@
    } else {
        ""@
    }
}

/// What an exit code of curl means; empty for one that is not known.
pub fn curl_hint(code: i32) -> (r: &'static str)
    ensures
        r@ == curl_hint_text(code as int),
{
    match code {
        6 => "域名解析失败（端点写错了？）",
        7 => "连不上端点（服务没起？端口/地址对不对？）",
        28 => "请求超时（网络慢，或模型想太久）",
        35 => "TLS 握手失败（代理/防火墙？）",
        60 => "证书校验失败（自签名证书？）",
        _ => "",
    }
}

/// A result with its strings as texts.
pub open spec fn outcome_text(r: Result<String, String>) -> Result<Seq<char>, Seq<char>> {
    match r {
        Ok(t) => Ok(t@),
        Err(e) => Err(e@),
    }
}

/// What comes of a reply that has an `error` member, that member's message, and
/// the content of the first choice.
pub open spec fn answer(
    error: Option<Seq<char>>,
    message: Option<Seq<char>>,
    content: Option<Seq<char>>,
) -> Result<Seq<char>, Seq<char>> {
    match error {
        Some(e) => Err(
            "AI 错误："@ + match message {
                Some(m) => m,
                None => e,
            },
        ),
        None => match content {
            Some(c) => if trimmed(c).len() == 0 {
                Err("AI 返回为空"@)
            } else {
                Ok(c)
            },
            None => Err("AI 返回为空"@),
        },
    }
}

/// What comes of a reply that has an `error` member, that member's message, and
/// the content of the first choice.
pub fn answer_from(
    error: &Option<String>,
    message: &Option<String>,
    content: Option<String>,
) -> (r: Result<String, String>)
    ensures
        outcome_text(r) == answer(optional(*error), optional(*message), optional(content)),
{
    if let Some(e) = error {
        let mut out = "AI 错误：".to_owned();
        match message {
            Some(m) => out.append(m.as_str()),
            None => out.append(e.as_str()),
        }
        return Err(out);
    }
    match content {
        Some(c) => {
            if text::is_blank(c.as_str()) {
                Err("AI 返回为空".to_owned())
            } else {
                Ok(c)
            }
        },
        None => Err("AI 返回为空".to_owned()),
    }
}

/// What comes of a reply that is no stream.
pub open spec fn completion(doc: Seq<char>) -> Result<Seq<char>, Seq<char>> {
    let error = json::json_member(doc, "error"@);
    answer(
        error,
        string_of(member_of(error, "message"@)),
        string_of(
            member_of(
                member_of(item_of(json::json_member(doc, "choices"@), 0), "message"@),
                "content"@,
            ),
        ),
    )
}

/// What comes of a reply that is no stream.
pub fn parse_completion_body(body: &[u8]) -> (r: Result<String, String>)
    ensures
        outcome_text(r) == match json_text(body@) {
            Ok(doc) => completion(doc),
            Err(e) => Err(e),
        },
{
    match json::parse(body) {
        Err(e) => Err(e),
        Ok(doc) => {
            let error = json::member(doc.as_str(), "error");
            let said = json::get(&error, "message");
            let message = json::as_string(&said);
            let choices = json::member(doc.as_str(), "choices");
            let first = json::nth(&choices, 0);
            let reply = json::get(&first, "message");
            let body = json::get(&reply, "content");
            let content = json::as_string(&body);
            answer_from(&error, &message, content)
        },
    }
}

/// A message of a request.
pub open spec fn message_json(m: (Seq<char>, Seq<char>)) -> Seq<char> {
    "{\"content\":"@ + json_quoted(m.1) + ",\"role\":"@ + json_quoted(m.0) + "}"@
}

/// The body of a request: the messages, the model, as a stream, at temperature 0.
pub open spec fn request_json(
    model: Seq<char>,
    messages: Seq<(Seq<char>, Seq<char>)>,
) -> Seq<char> {
    "{\"messages\":["@ + text::joined(
        messages.map_values(|m: (Seq<char>, Seq<char>)| message_json(m)),
        ","@,
    ) + "],\"model\":"@ + json_quoted(model) + ",\"stream\":true,\"temperature\":0.0}"@
}

/// The body of a request.
pub fn request_body(model: &str, messages: &[(String, String)]) -> (r: String)
    ensures
        r@ == request_json(model@, messages_of(messages@)),
{
    let ghost wanted = messages_of(messages@).map_values(
        |m: (Seq<char>, Seq<char>)| message_json(m),
    );
    let mut parts: Vec<String> = Vec::new();
    let mut i: usize = 0;
    assert(text::views(parts@) =~= wanted.take(0));
    while i < messages.len()
        invariant
            i <= messages@.len(),
            wanted == messages_of(messages@).map_values(
                |m: (Seq<char>, Seq<char>)| message_json(m),
            ),
            text::views(parts@) == wanted.take(i as int),
        decreases messages@.len() - i,
    {
        let ghost before = parts@;
        let mut one = "{\"content\":".to_owned();
        let content = json::quote(messages[i].1.as_str());
        one.append(content.as_str());
        one.append(",\"role\":");
        let role = json::quote(messages[i].0.as_str());
        one.append(role.as_str());
        one.append("}");
        assert(one@ == wanted[i as int]);
        parts.push(one);
        assert(text::views(parts@) =~= text::views(before).push(wanted[i as int]));
        assert(text::views(parts@) =~= wanted.take(i + 1));
        i += 1;
    }
    let n: usize = parts.len();
    assert(text::views(parts@).take(n as int) =~= wanted);
    let mut out = "{\"messages\":[".to_owned();
    let list = text::join(&parts, n, ",");
    out.append(list.as_str());
    out.append("],\"model\":");
    let name = json::quote(model);
    out.append(name.as_str());
    out.append(",\"stream\":true,\"temperature\":0.0}");
    out
}

/// The arguments of curl for a request whose body is in `body_path`.
pub open spec fn curl_arguments(
    base_url: Seq<char>,
    key: Option<Seq<char>>,
    body_path: Seq<char>,
) -> Seq<Seq<char>> {
    seq![
        "-s"@,
        "-N"@,
        "--max-time"@,
        "120"@,
        "-X"@,
        "POST"@,
        base_url,
        "-H"@,
        "Content-Type: application/json"@,
    ] + (match key {
        Some(k) => seq!["-H"@, "Authorization: Bearer "@ + k],
        None => Seq::empty(),
    }) + seq!["--data-binary"@, "@"@ + body_path]
}

/// The arguments of curl for a request whose body is in `body_path`.
pub fn curl_args(base_url: &str, key: Option<&str>, body_path: &str) -> (r: Vec<String>)
    ensures
        text::views(r@) == curl_arguments(base_url@, said(key), body_path@),
{
    let mut out: Vec<String> = Vec::new();
    out.push("-s".to_owned());
    out.push("-N".to_owned());
    out.push("--max-time".to_owned());
    out.push("120".to_owned());
    out.push("-X".to_owned());
    out.push("POST".to_owned());
    out.push(base_url.to_owned());
    out.push("-H".to_owned());
    out.push("Content-Type: application/json".to_owned());
    if let Some(k) = key {
        out.push("-H".to_owned());
        let mut auth = "Authorization: Bearer ".to_owned();
        auth.append(k);
        out.push(auth);
    }
    out.push("--data-binary".to_owned());
    let mut data = "@".to_owned();
    data.append(body_path);
    out.push(data);
    assert(text::views(out@) =~= curl_arguments(base_url@, said(key), body_path@));
    out
}

/// What has come of a stream so far.
pub struct Stream {
    /// All lines, each with a newline.
    pub raw: Vec<u8>,
    /// The text of the reply.
    pub streamed: String,
    /// How many characters came, reasoning counted.
    pub generated: usize,
}

/// `a + b`, or the largest number where that does not fit.
pub open spec fn capped_sum(a: int, b: int) -> int {
    if a + b > usize::MAX {
        usize::MAX as int
    } else {
        a + b
    }
}

/// How long an optional text is.
pub open spec fn length_of(s: Option<Seq<char>>) -> int {
    match s {
        Some(t) => t.len() as int,
        None => 0,
    }
}

impl Stream {
    /// A stream from which nothing has come.
    pub fn new() -> (r: Self)
        ensures
            r.raw@ == Seq::<u8>::empty(),
            r.streamed@ == Seq::<char>::empty(),
            r.generated == 0,
    {
        Stream { raw: Vec::new(), streamed: String::new(), generated: 0 }
    }

    /// Takes what a chunk adds: the text is kept, reasoning is only counted.
    pub fn take(&mut self, content: &Option<String>, reasoning: &Option<String>)
        ensures
            final(self).raw@ == old(self).raw@,
            final(self).streamed@ == old(self).streamed@ + match optional(*content) {
                Some(c) => c,
                None => Seq::empty(),
            },
            final(self).generated == capped_sum(
                capped_sum(old(self).generated as int, length_of(optional(*content))),
                length_of(optional(*reasoning)),
            ),
    {
        match content {
            Some(c) => {
                self.generated = self.generated.saturating_add(text::count(c.as_str()));
                self.streamed.append(c.as_str());
            },
            None => {
                assert(self.streamed@ =~= self.streamed@ + Seq::<char>::empty());
            },
        }
        if let Some(t) = reasoning {
            self.generated = self.generated.saturating_add(text::count(t.as_str()));
        }
    }

    /// Takes a line. Says whether it was a chunk, so that progress is worth showing.
    pub fn feed(&mut self, line: &str) -> (r: bool)
        ensures
            final(self).raw@ == old(self).raw@ + bytes(line@).push(10u8),
            r == (match data_of(line@) {
                Some(data) => delta_of(data) is Some,
                None => false,
            }),
            r ==> ({
                let d = delta_of(data_of(line@)->0)->0;
                &&& final(self).streamed@ == old(self).streamed@ + match d.0 {
                    Some(c) => c,
                    None => Seq::empty(),
                }
                &&& final(self).generated == capped_sum(
                    capped_sum(old(self).generated as int, length_of(d.0)),
                    length_of(d.1),
                )
            }),
            !r ==> final(self).streamed@ == old(self).streamed@ && final(self).generated == old(
                self,
            ).generated,
    {
        let ghost before = self.raw@;
        let b = line.as_bytes();
        let mut i: usize = 0;
        while i < b.len()
            invariant
                i <= b@.len(),
                self.raw@ == before + b@.take(i as int),
                self.streamed@ == old(self).streamed@,
                self.generated == old(self).generated,
            decreases b@.len() - i,
        {
            self.raw.push(b[i]);
            assert(self.raw@ =~= before + b@.take(i + 1));
            i += 1;
        }
        assert(b@.take(i as int) =~= b@);
        self.raw.push(10);
        assert(self.raw@ =~= before + b@.push(10u8));
        match parse_sse_delta(line) {
            Some((content, reasoning)) => {
                self.take(&content, &reasoning);
                true
            },
            None => false,
        }
    }
}

/// How a request ended when curl had failed.
pub open spec fn failure(code: int, stderr: Seq<char>) -> Seq<char> {
    let message = trimmed(stderr);
    let hint = curl_hint_text(code);
    if message.len() > 0 {
        "AI 请求失败："@ + message
    } else if hint.len() == 0 {
        "curl 退出码 "@ + signed(code)
    } else {
        hint + "（curl "@ + signed(code) + "）"@
    }
}

/// How a request ended when curl had failed.
pub fn failure_message(code: i32, stderr: &str) -> (r: String)
    ensures
        r@ == failure(code as int, stderr@),
{
    let message = text::trim(stderr);
    let hint = curl_hint(code);
    let number = decimal::show_signed(code);
    if !message.as_str().is_empty() {
        let mut out = "AI 请求失败：".to_owned();
        out.append(message.as_str());
        out
    } else if hint.is_empty() {
        let mut out = "curl 退出码 ".to_owned();
        out.append(number.as_str());
        out
    } else {
        let mut out = hint.to_owned();
        out.append("（curl ");
        out.append(number.as_str());
        out.append("）");
        out
    }
}

/// How a request ended: with what was streamed, if anything; or else as curl
/// failed; or else with the reply read as a whole.
pub fn finish(stream: &Stream, success: bool, code: Option<i32>, stderr: &str) -> (r: Result<
    String,
    String,
>)
    ensures
        outcome_text(r) == if trimmed(stream.streamed@).len() > 0 {
            Ok(stream.streamed@)
        } else if !success {
            Err(
                failure(
                    match code {
                        Some(c) => c as int,
                        None => -1,
                    },
                    stderr@,
                ),
            )
        } else {
            match json_text(stream.raw@) {
                Ok(doc) => completion(doc),
                Err(e) => Err(e),
            }
        },
{
    if !text::is_blank(stream.streamed.as_str()) {
        return Ok(stream.streamed.clone());
    }
    if !success {
        let c: i32 = match code {
            Some(c) => c,
            None => -1,
        };
        return Err(failure_message(c, stderr));
    }
    parse_completion_body(stream.raw.as_slice())
}

/// What a look at the running request shows.
pub enum Glance {
    /// It still runs.
    Running,
    /// It has ended.
    Ended,
    /// It could not be looked at; why.
    Broken(String),
}

/// What is to be done about the running request.
pub enum Wait {
    /// End it; the request failed with this message.
    Kill(String),
    /// Look again after this many milliseconds.
    Sleep(u64),
    /// Read what came.
    Collect,
    /// The request failed with this message.
    Fail(String),
}

/// What is to be done about a running request: a cancelled one is ended before
/// anything else is looked at.
pub fn next_wait(cancelled: bool, glance: &Glance) -> (r: Wait)
    ensures
        cancelled ==> (r matches Wait::Kill(m) && m@ == "已取消"@),
        !cancelled ==> match *glance {
            Glance::Running => r == Wait::Sleep(50),
            Glance::Ended => r == Wait::Collect,
            Glance::Broken(why) => r matches Wait::Fail(m) && m@ == "等 curl 失败："@ + why@,
        },
{
    if cancelled {
        return Wait::Kill("已取消".to_owned());
    }
    match glance {
        Glance::Running => Wait::Sleep(50),
        Glance::Ended => Wait::Collect,
        Glance::Broken(why) => {
            let mut out = "等 curl 失败：".to_owned();
            out.append(why.as_str());
            Wait::Fail(out)
        },
    }
}

/// What is said where curl cannot be started.
pub fn spawn_error(not_found: bool, why: &str) -> (r: String)
    ensures
        r@ == if not_found {
            "没找到 curl：AI 功能需要 PATH 里有 curl（Windows 10 1803+ 自带）"@
        } else {
            "启动 curl 失败："@ + why@
        },
{
    if not_found {
        "没找到 curl：AI 功能需要 PATH 里有 curl（Windows 10 1803+ 自带）".to_owned()
    } else {
        let mut out = "启动 curl 失败：".to_owned();
        out.append(why);
        out
    }
}

/// A value of the environment goes before a setting, a setting before the default; a blank
/// one counts as none.
pub proof fn the_environment_goes_first(
    env: Option<Seq<char>>,
    setting: Option<Seq<char>>,
    default: Seq<char>,
    endpoint: Seq<char>,
    file: Option<Seq<char>>,
)
    ensures
        env matches Some(e) && !text::all_space(e) ==> resolved(env, setting, default) == env->0
            && key_for(env, endpoint, setting, file) == env,
        (env matches Some(e) ==> text::all_space(e)) && (setting matches Some(s)
            && !text::all_space(s)) ==> resolved(env, setting, default) == trimmed(setting->0)
            && key_for(env, endpoint, setting, file) == Some(trimmed(setting->0)),
        (env matches Some(e) ==> text::all_space(e)) && (setting matches Some(s)
            ==> text::all_space(s)) ==> resolved(env, setting, default) == default && key_for(
            env,
            endpoint,
            setting,
            file,
        ) == if occurs(endpoint, "deepseek"@) {
            stored_key(file)
        } else {
            None
        },
{
    if let Some(e) = env {
        lemma_blank_is_all_space(e);
    }
    if let Some(s) = setting {
        lemma_blank_is_all_space(s);
    }
}

/// Trimming leaves nothing if and only if there is nothing but whitespace.
pub proof fn lemma_blank_is_all_space(s: Seq<char>)
    ensures
        trimmed(s).len() == 0 <==> text::all_space(s),
{
    text::trimming_takes_away_only_whitespace(s);
    let t = trimmed(s);
    let (before, after) = choose|before: Seq<char>, after: Seq<char>|
        text::all_space(before) && text::all_space(after) && #[trigger] (before + t + after) == s;
    if t.len() > 0 {
        assert(s[before.len() as int] == t[0]);
    } else {
        assert forall|i: int| 0 <= i < s.len() implies text::is_space(#[trigger] s[i]) by {
            if i < before.len() {
                assert(s[i] == before[i]);
            } else {
                assert(s[i] == after[i - before.len()]);
            }
        }
    }
}

/// A text that is too long keeps its two ends, and says how much was between them.
pub proof fn shortened_texts_say_what_is_missing(
    head: Seq<char>,
    middle: Seq<char>,
    tail: Seq<char>,
    limit: nat,
)
    requires
        head.len() == limit / 2,
        tail.len() == limit / 2,
        head.len() + middle.len() + tail.len() > limit,
    ensures
        shortened(head + middle + tail, limit) == head + ("\n……（此处省略 "@ + decimal(
            middle.len(),
        ) + " 字）……\n"@) + tail,
{
    let s = head + middle + tail;
    let half = (limit / 2) as int;
    assert(s.take(half) =~= head);
    assert(s.skip(s.len() - half) =~= tail);
}

/// What follows `data:` on a line of a stream is its data, whitespace around it aside.
pub proof fn data_lines_are_read(before: Seq<char>, data: Seq<char>, after: Seq<char>)
    requires
        text::all_space(before),
        text::all_space(after),
        data.len() > 0,
        !text::is_space(data[0]),
        !text::is_space(data.last()),
    ensures
        data_of("data:"@ + before + data + after) == if data == "[DONE]"@ {
            None
        } else {
            Some(data)
        },
{
    reveal_strlit("data:");
    let line = "data:"@ + before + data + after;
    assert(line.skip(5) =~= before + data + after);
    text::lemma_trimmed_around(before, data, after);
    text::lemma_trim_start(before);
    text::lemma_trim_end(after);
    if text::trim_start(before).len() > 0 {
        assert(before[before.len() - text::trim_start(before).len()] == text::trim_start(
            before,
        )[0]);
    }
    if text::trim_end(after).len() > 0 {
        assert(after[text::trim_end(after).len() - 1] == text::trim_end(after).last());
    }
    assert(trimmed(line.skip(5)) =~= data);
    assert(line.subrange(0, 5) =~= "data:"@);
    assert(line.take(5) =~= "data:"@);
}

/// A reply that tells of an error is never taken for a text, and one that tells of none is
/// the text that it holds, unless that is blank.
pub proof fn errors_are_never_taken_for_answers(
    error: Option<Seq<char>>,
    message: Option<Seq<char>>,
    content: Seq<char>,
)
    ensures
        error is Some ==> answer(error, message, Some(content)) is Err,
        error is None && !text::all_space(content) ==> answer(error, message, Some(content)) == Ok::<
            Seq<char>,
            Seq<char>,
        >(content),
        error is None && text::all_space(content) ==> answer(error, message, Some(content)) is Err,
        answer(error, message, None) is Err,
{
    lemma_blank_is_all_space(content);
}

/// A request holds every message, in order, with who speaks and what: one message more
/// stands behind those that were there, and nothing else changes.
pub proof fn requests_hold_every_message(
    model: Seq<char>,
    messages: Seq<(Seq<char>, Seq<char>)>,
    role: Seq<char>,
    content: Seq<char>,
)
    ensures
        ({
            let tail = "],\"model\":"@ + json_quoted(model)
                + ",\"stream\":true,\"temperature\":0.0}"@;
            let one = "{\"content\":"@ + json_quoted(content) + ",\"role\":"@ + json_quoted(role)
                + "}"@;
            exists|list: Seq<char>|
                {
                    &&& #[trigger] ("{\"messages\":["@ + list + tail) == request_json(
                        model,
                        messages,
                    )
                    &&& messages.len() == 0 ==> list.len() == 0
                    &&& request_json(model, messages.push((role, content))) == "{\"messages\":["@
                        + (list + (if messages.len() == 0 {
                        Seq::empty()
                    } else {
                        ","@
                    }) + one) + tail
                }
        }),
{
    let f = |m: (Seq<char>, Seq<char>)| message_json(m);
    let m = (role, content);
    let tail = "],\"model\":"@ + json_quoted(model) + ",\"stream\":true,\"temperature\":0.0}"@;
    let parts = messages.map_values(f);
    let list = text::joined(parts, ","@);
    let more = messages.push(m).map_values(f);
    assert(more =~= parts.push(message_json(m)));
    assert(more.drop_last() =~= parts);
    let one = message_json(m);
    if messages.len() == 0 {
        assert(text::joined(more, ","@) =~= list + Seq::empty() + one);
    } else {
        assert(text::joined(more, ","@) =~= list + ","@ + one);
    }
    assert("{\"messages\":["@ + list + tail =~= request_json(model, messages));
    assert(request_json(model, messages.push(m)) =~= "{\"messages\":["@ + text::joined(more, ","@)
        + tail);
}

/// Only a DeepSeek endpoint is given the key of the credentials file.
pub proof fn stored_keys_go_to_their_own_endpoint(endpoint: Seq<char>, file: Option<Seq<char>>)
    requires
        !occurs(endpoint, "deepseek"@),
    ensures
        key_for(None, endpoint, None, file) is None,
{
}

/// Each task is asked for in its own words, with the errors where it mends them.
pub proof fn each_task_has_its_own_words(errors: Seq<char>)
    ensures
        ask_text(AiTask::SyntaxFix, errors) == ASK_FIX@ + errors + "\n\n【源文件】\n"@,
        ask_text(AiTask::Proofread, errors) == ASK_PROOFREAD@,
        ask_text(AiTask::Terminology, errors) == ASK_TERMS@,
        ask_text(AiTask::TranslateToEnglish, errors) == ASK_ENGLISH@,
        ask_text(AiTask::TranslateToChinese, errors) == ASK_CHINESE@,
        role_text(AiTask::SyntaxFix) == WRITER@,
        role_text(AiTask::Proofread) == WRITER@,
        role_text(AiTask::Terminology) == WRITER@,
        role_text(AiTask::TranslateToEnglish) == TRANSLATOR@,
        role_text(AiTask::TranslateToChinese) == TRANSLATOR@,
{
}

/// A request goes to its endpoint, with the body from its file and with the key, if there is
/// one, and no other.
pub proof fn requests_go_where_they_should(url: Seq<char>, key: Option<Seq<char>>, path: Seq<char>)
    ensures
        curl_arguments(url, key, path)[4] == "-X"@,
        curl_arguments(url, key, path)[5] == "POST"@,
        curl_arguments(url, key, path)[6] == url,
        curl_arguments(url, key, path)[7] == "-H"@,
        curl_arguments(url, key, path)[8] == "Content-Type: application/json"@,
        key matches Some(k) ==> curl_arguments(url, key, path).len() == 13 && curl_arguments(
            url,
            key,
            path,
        )[9] == "-H"@ && curl_arguments(url, key, path)[10] == "Authorization: Bearer "@ + k,
        key is None ==> curl_arguments(url, key, path).len() == 11,
        ({
            let a = curl_arguments(url, key, path);
            a[a.len() - 2] == "--data-binary"@ && a[a.len() - 1] == "@"@ + path
        }),
{
}

/// A fence that opens and closes on the last line of a reply gives what stands between.
pub proof fn fences_in_one_line_give_what_is_between(
    before: Seq<char>,
    code: Seq<char>,
    after: Seq<char>,
)
    requires
        !occurs(before, "```"@),
        !occurs(code, "```"@),
        before.len() > 0 ==> before.last() != '`',
        code.len() > 0 ==> code.last() != '`',
        forall|i: int| 0 <= i < code.len() ==> #[trigger] code[i] != '\n',
        forall|i: int| 0 <= i < after.len() ==> #[trigger] after[i] != '\n',
    ensures
        cleaned(before + "```"@ + code + "```"@ + after) == trimmed(code),
{
    let fence = "```"@;
    let line = "\n"@;
    reveal_strlit("```");
    reveal_strlit("\n");
    let reply = before + fence + code + fence + after;
    let inside = fence + code + fence;
    assert(reply =~= before + inside + after);
    text::lemma_trimmed_around(before, inside, after);
    let x = text::trim_start(before);
    let y = text::trim_end(after);
    let t = trimmed(reply);
    lemma_start_without_fence(before);
    text::lemma_trim_start(before);
    text::lemma_trim_end(after);
    assert(x.len() > 0 ==> x.last() == before.last());
    let none = Seq::<char>::empty();
    assert(t =~= none + x + fence + (code + fence + y));
    lemma_fence_closes(t, none, x, code + fence + y);
    let head = x + fence;
    assert(t =~= head + code + fence + y);
    lemma_fence_closes(t, head, code, y);
    assert forall|j: int| head.len() <= j implies !#[trigger] text::occurs_at(t, line, j) by {
        if text::occurs_at(t, line, j) {
            assert(t.subrange(j, j + 1)[0] == '\n');
            assert(t[j] == '\n');
            let a = head.len() + code.len();
            if j < a {
                assert(t[j] == code[j - head.len()]);
            } else if j < a + 3 {
                assert(t[j] == fence[j - a]);
            } else {
                assert(t[j] == y[j - a - 3]);
                assert(y[j - a - 3] == after[j - a - 3]);
            }
        }
    }
    text::lemma_search_none(t, line, head.len() as int);
}

/// What has come of a stream is counted in characters.
pub proof fn characters_are_counted(a: int, t: Seq<char>)
    requires
        a + t.len() <= usize::MAX,
    ensures
        capped_sum(a, length_of(Some(t))) == a + t.len(),
        0 <= a ==> capped_sum(a, length_of(None)) == a,
{
}

} // verus!
