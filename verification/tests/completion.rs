//! Completing names.

use typst_live::completion::{CompletionItem, ItemKind, TypstCompletion, MAX_ITEMS};

fn names(list: &[&str]) -> Vec<String> {
    list.iter().map(|s| s.to_string()).collect()
}

fn candidates(provider: &TypstCompletion, source: &str, offset: usize) -> Vec<CompletionItem> {
    provider.candidates(
        source,
        offset,
        &names(&["table", "figure", "image"]),
        &names(&["let", "set", "show", "import"]),
        &names(&["abs", "table", "tag", "text", "figure", "中文排版"]),
    )
}

fn provider() -> TypstCompletion {
    TypstCompletion::new(vec!["我的函数".to_string()])
}

fn labels(items: &[CompletionItem]) -> Vec<String> {
    items.iter().map(|i| i.label.clone()).collect()
}

#[test]
fn completes_after_hash() {
    let items = candidates(&provider(), "#ta", 3);

    assert!(
        labels(&items).contains(&"table".to_string()),
        "{:?}",
        labels(&items)
    );
}

#[test]
fn stays_quiet_in_plain_text() {
    assert!(
        candidates(&provider(), "这是一段普通文字 ta", 20)
            .is_empty()
    );
}

#[test]
fn an_offset_inside_a_multibyte_char_does_not_panic() {
    let text = "这是一段普通文字";
    for offset in 0..=text.len() {
        let _ = candidates(&provider(), text, offset);
    }
}

#[test]
fn stays_quiet_in_comments() {
    let text = "// 这里写 #ta 也不该弹\n";
    assert!(candidates(&provider(), text, 16).is_empty());
}

#[test]
fn local_names_come_first() {
    let text = "#let 我的函数 = 1\n#";
    let items = candidates(&provider(), text, text.len());

    let local = items.iter().position(|i| i.label == "我的函数");
    let builtin = items.iter().position(|i| i.label == "table");
    assert!(local.is_some(), "本地名字该出现：{:?}", labels(&items));
    assert!(builtin.is_some(), "内置名字该出现");
    assert!(local.unwrap() < builtin.unwrap(), "本地名字该排在前面");
}

#[test]
fn the_edit_range_covers_the_typed_prefix() {
    let text = "#tab";
    let items = candidates(&provider(), text, 4);
    let table = items
        .iter()
        .find(|i| i.label == "table")
        .expect("该有 table");

    assert_eq!(table.start.character, 1, "范围从 `#` 之后开始");
    assert_eq!(table.end.character, 4);
    assert_eq!(table.label, "table");
}

#[test]
fn an_empty_prefix_still_offers_everything() {
    let items = candidates(&provider(), "#", 1);

    assert!(!items.is_empty());
    assert!(items.len() <= MAX_ITEMS);
}

#[test]
fn multibyte_prefix_is_safe() {
    let provider = TypstCompletion::new(vec!["中文名".to_string()]);
    let text = "#let 中文名 = 1\n#中文";
    let items = candidates(&provider, text, text.len());

    assert!(
        items.iter().any(|i| i.label == "中文名"),
        "{:?}",
        labels(&items)
    );
}

#[test]
fn candidates_are_unique() {
    for prefix in ["", "t", "ta", "中文"] {
        let text = format!("#{prefix}");
        let labels = labels(&candidates(&provider(), &text, text.len()));
        let mut unique = labels.clone();
        unique.sort();
        unique.dedup();

        assert_eq!(labels.len(), unique.len(), "有重复候选：{labels:?}");
    }
}

#[test]
fn odd_input_does_not_panic() {
    let text = "#ta";
    let _ = candidates(&provider(), text, 999);
    let long = format!("#{}", "a".repeat(100));
    assert!(
        candidates(&provider(), &long, long.len()).is_empty(),
        "超长前缀不补全"
    );
}

#[test]
fn candidates_come_by_rank_and_then_by_name() {
    let items = candidates(&provider(), "#", 1);
    assert_eq!(
        labels(&items),
        vec![
            "我的函数", "figure", "image", "table", "import", "let", "set", "show", "abs", "tag", "text",
            "中文排版"
        ]
    );
    assert_eq!(items[0].detail, "本文档定义");
    assert_eq!(items[1].detail, "常用");
    assert_eq!(items[4].detail, "关键字");
    assert_eq!(items[8].detail, "Typst 内置");
    assert_eq!(items[4].kind, ItemKind::Keyword);
    assert_eq!(items[8].kind, ItemKind::Function);
}

#[test]
fn case_does_not_matter_for_a_prefix() {
    assert_eq!(labels(&candidates(&provider(), "#TA", 3)), vec!["table", "tag"]);
}

#[test]
fn no_more_than_the_limit_is_offered() {
    let many: Vec<String> = (0..100).map(|i| format!("n{i:03}")).collect();
    let items = TypstCompletion::new(many).candidates("#n", 2, &[], &[], &[]);
    assert_eq!(items.len(), MAX_ITEMS);
    assert_eq!(items[59].label, "n059");
}

#[test]
fn a_prefix_of_sixty_four_bytes_is_too_long() {
    let p = provider();
    let at = |n: usize| p.prefix_at(&format!("#{}", "a".repeat(n)), n + 1);
    assert_eq!(at(63), Some(("a".repeat(63), 1)));
    assert_eq!(at(64), None);
}

#[test]
fn typing_part_of_a_name_triggers() {
    assert!(provider().is_completion_trigger("t"));
    assert!(provider().is_completion_trigger("-"));
    assert!(provider().is_completion_trigger("中"));
    assert!(!provider().is_completion_trigger(" "));
    assert!(!provider().is_completion_trigger(""));
}

#[test]
fn a_typed_name_is_measured_in_characters() {
    let name = "中".repeat(22);
    let text = format!("#{name}");
    assert_eq!(provider().prefix_at(&text, 67), Some((name, 1)));
    let longest = "中".repeat(63);
    let text = format!("#{longest}");
    assert_eq!(provider().prefix_at(&text, text.len()), Some((longest, 1)));
    let text = format!("#{}", "中".repeat(64));
    assert_eq!(provider().prefix_at(&text, text.len()), None);
}

#[test]
fn only_a_line_that_begins_with_two_slashes_is_a_comment() {
    assert!(!provider().in_comment("http://a #ta", 12));
    assert!(provider().in_comment("x\n// #ta", 8));
    assert!(!provider().in_comment("// a\n#ta", 8));
    assert!(provider().in_comment("  // #ta", 8));
    assert!(provider().in_comment("x\n\t//#ta", 8));
    assert!(candidates(&provider(), " // #ta", 7).is_empty());
    assert!(!candidates(&provider(), "http://a #ta", 12).is_empty());
}
