//! The language model: prompts, requests and answers.

use typst_live::ai::{
    api_key, clean_source, curl_args, curl_hint, edit_messages, finish, is_local_endpoint,
    next_wait, parse_completion_body, parse_sse_delta, request_body, resolve_base_url,
    resolve_model, task_prompt, truncate_context, AiTask, Glance, Stream, Wait,
    AI_BASE_URL_DEFAULT, AI_MODEL_DEFAULT,
};

#[test]
fn endpoints_and_models_fall_back_to_defaults() {
    assert_eq!(resolve_base_url(None, None), AI_BASE_URL_DEFAULT);
    assert_eq!(
        resolve_base_url(None, Some("   ")),
        AI_BASE_URL_DEFAULT,
        "空串等于没设"
    );
    assert_eq!(
        resolve_base_url(None, Some(" http://127.0.0.1:8080/v1 ")),
        "http://127.0.0.1:8080/v1",
        "两头的空白要去掉"
    );

    assert_eq!(resolve_model(None, None), AI_MODEL_DEFAULT);
    assert_eq!(resolve_model(None, Some("deepseek-v4-pro")), "deepseek-v4-pro");
}

#[test]
fn curl_exit_codes_are_explained_in_plain_words() {
    assert!(curl_hint(7).contains("连不上"));
    assert!(curl_hint(28).contains("超时"));
    assert_eq!(curl_hint(12345), "", "没见过的码就别硬编");
}

#[test]
fn local_endpoints_are_recognised() {
    assert!(is_local_endpoint(
        "http://127.0.0.1:11434/v1/chat/completions"
    ));
    assert!(is_local_endpoint("http://localhost:8080"));
    assert!(!is_local_endpoint(
        "https://api.deepseek.com/chat/completions"
    ));
}

#[test]
fn truncation_keeps_head_and_tail_and_says_how_much_it_dropped() {
    let text: String = "字".repeat(100);

    let (short, truncated) = truncate_context(&text, 200);
    assert_eq!(short, text, "没超限就原样");
    assert!(!truncated);

    let (long, truncated) = truncate_context(&text, 40);
    assert!(truncated);
    assert!(long.starts_with(&"字".repeat(20)), "头 20 字要留着");
    assert!(long.ends_with(&"字".repeat(20)), "尾 20 字要留着");
    assert!(
        long.contains("此处省略 60 字"),
        "省略了多少得写出来：{long}"
    );
}

#[test]
fn truncation_counts_characters_not_bytes() {
    let text = "中".repeat(30);
    let (out, truncated) = truncate_context(&text, 30);

    assert!(!truncated, "30 个汉字没超过 30 字上限");
    assert_eq!(out, text);
}

#[test]
fn code_fences_are_stripped() {
    let reply = "这是说明\n```typst\n= 标题\n\n正文\n```\n后面还有话";
    assert_eq!(clean_source(reply), "= 标题\n\n正文");

    assert_eq!(clean_source("```\n= 仅围栏\n```"), "= 仅围栏");
    assert_eq!(clean_source("  裸文本  "), "裸文本", "没有围栏就只去空白");
}

#[test]
fn an_unclosed_fence_falls_back_gracefully() {
    let reply = "```typst\n= 标题";
    assert_eq!(clean_source(reply), "= 标题");
}

#[test]
fn sse_deltas_are_parsed_including_reasoning() {
    let line = r#"data: {"choices":[{"delta":{"content":"你好"}}]}"#;
    assert_eq!(
        parse_sse_delta(line),
        Some((Some("你好".to_string()), None))
    );

    let thinking = r#"data: {"choices":[{"delta":{"reasoning_content":"嗯…"}}]}"#;
    assert_eq!(
        parse_sse_delta(thinking),
        Some((None, Some("嗯…".to_string())))
    );

    assert_eq!(parse_sse_delta("data: [DONE]"), None);
    assert_eq!(parse_sse_delta("data: "), None);
    assert_eq!(parse_sse_delta("event: ping"), None, "非 data: 行不管");
    assert_eq!(parse_sse_delta("data: 不是 JSON"), None);
}

#[test]
fn a_non_streaming_body_is_parsed_as_a_fallback() {
    let body = r#"{"choices":[{"message":{"content":"= 标题"}}]}"#.as_bytes();
    assert_eq!(parse_completion_body(body).unwrap(), "= 标题");

    let empty = r#"{"choices":[{"message":{"content":"  "}}]}"#.as_bytes();
    assert!(parse_completion_body(empty).is_err(), "空内容要报错");

    let err = r#"{"error":{"message":"额度不足"}}"#.as_bytes();
    let message = parse_completion_body(err).unwrap_err();
    assert!(message.contains("额度不足"), "{message}");
}

#[test]
fn history_is_trimmed_to_the_last_six_turns() {
    let history: Vec<(bool, String)> = (0..20)
        .map(|i| (i % 2 == 0, format!("第 {i} 轮")))
        .collect();

    let messages = edit_messages("上下文", &history, "把这段改短");

    assert_eq!(messages.len(), 2 + 12 + 1);
    assert_eq!(messages[0].0, "system");
    assert!(messages[1].1.contains("上下文"));
    assert!(
        !messages.iter().any(|(_, t)| t == "第 0 轮"),
        "老历史该被丢掉"
    );
    assert!(messages.iter().any(|(_, t)| t == "第 19 轮"));
    assert_eq!(messages.last().unwrap().1, "把这段改短");
}

#[test]
fn task_prompts_carry_the_task_and_the_source() {
    let prompt = task_prompt(AiTask::SyntaxFix, "= 标题", "第 3 行少个括号");
    assert!(prompt.contains("第 3 行少个括号"), "诊断要进提示词");
    assert!(prompt.contains("= 标题"));

    let prompt = task_prompt(AiTask::Proofread, "正文", "");
    assert!(prompt.contains("校对"));
    assert!(prompt.contains("正文"));
}

#[test]
fn the_environment_comes_before_the_settings() {
    assert_eq!(resolve_model(Some("env"), Some("set")), "env");
    assert_eq!(resolve_model(Some("  "), Some("set")), "set");
}

#[test]
fn a_key_is_looked_for_in_three_places() {
    let file = Some(r#"{"deepseek":{"key":"k3"}}"#.to_string());
    let cloud = "https://api.deepseek.com/x";
    assert_eq!(api_key(Some("k1"), cloud, Some(" k2 "), &file), Some("k1".to_string()));
    assert_eq!(api_key(None, cloud, Some(" k2 "), &file), Some("k2".to_string()));
    assert_eq!(api_key(Some(" "), cloud, Some(" "), &file), Some("k3".to_string()));
    assert_eq!(api_key(None, cloud, None, &Some("{}".to_string())), None);
    assert_eq!(api_key(None, "https://elsewhere", None, &file), None);
}

#[test]
fn an_odd_limit_says_what_is_really_left_out() {
    let (out, cut) = truncate_context("abcdefghij", 5);
    assert!(cut);
    assert_eq!(out, "ab\n……（此处省略 6 字）……\nij");
}

#[test]
fn labels_of_tasks() {
    assert_eq!(AiTask::SyntaxFix.label(), "语法检查并修复");
    assert_eq!(AiTask::TranslateToChinese.label(), "英译中");
}

#[test]
fn a_request_is_json_with_quoted_texts() {
    let messages = vec![("user".to_string(), "说 \"好\"\n".to_string())];
    assert_eq!(
        request_body("m", &messages),
        r#"{"messages":[{"content":"说 \"好\"\n","role":"user"}],"model":"m","stream":true,"temperature":0.0}"#
    );
}

#[test]
fn curl_is_told_where_the_body_is() {
    assert_eq!(
        curl_args("http://h", Some("k"), "/tmp/b.json").join(" "),
        "-s -N --max-time 120 -X POST http://h -H Content-Type: application/json \
         -H Authorization: Bearer k --data-binary @/tmp/b.json"
    );
    assert!(!curl_args("http://h", None, "b").join(" ").contains("Authorization"));
}

#[test]
fn an_answer_is_gathered_line_by_line() {
    let mut stream = Stream::new();
    assert!(stream.feed(r#"data: {"choices":[{"delta":{"reasoning_content":"想想"}}]}"#));
    assert!(stream.feed(r#"data: {"choices":[{"delta":{"content":"你好"}}]}"#));
    stream.feed("data: [DONE]");
    assert_eq!(stream.streamed, "你好");
    assert_eq!(stream.generated, 4, "思考也算进度");
    assert_eq!(finish(&stream, true, Some(0), ""), Ok("你好".to_string()));
}

#[test]
fn a_failed_request_says_why() {
    let stream = Stream::new();
    assert_eq!(
        finish(&stream, false, Some(7), " refused\n"),
        Err("AI 请求失败：refused".to_string())
    );
    assert_eq!(
        finish(&stream, false, Some(7), ""),
        Err("连不上端点（服务没起？端口/地址对不对？）（curl 7）".to_string())
    );
    assert_eq!(finish(&stream, false, Some(99), ""), Err("curl 退出码 99".to_string()));
    assert_eq!(finish(&stream, false, None, ""), Err("curl 退出码 -1".to_string()));
    assert!(finish(&stream, true, Some(0), "").is_err());
}

#[test]
fn a_request_is_waited_for_until_it_ends() {
    assert!(matches!(next_wait(true, &Glance::Running), Wait::Kill(m) if m == "已取消"));
    assert!(matches!(next_wait(false, &Glance::Running), Wait::Sleep(50)));
    assert!(matches!(next_wait(false, &Glance::Ended), Wait::Collect));
    let broken = Glance::Broken("x".to_string());
    assert!(matches!(next_wait(false, &broken), Wait::Fail(m) if m == "等 curl 失败：x"));
}
