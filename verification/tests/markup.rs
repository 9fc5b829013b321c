//! The buttons of the toolbar.

use typst_live::markup::{edit, inserted_message, Edit, Markup};

#[test]
fn an_empty_selection_puts_the_cursor_between_the_markers() {
    let edit = edit("abc", 3..3, Markup::Bold);

    assert_eq!(edit.text, "**");
    assert_eq!(edit.apply("abc"), "abc**");
    assert_eq!(edit.cursor, 4, "光标该在 `**` 中间");
}

#[test]
fn wrapping_a_cjk_selection_keeps_every_character() {
    let text = "你好世界";
    let edit = edit(text, 0..12, Markup::Bold);

    assert_eq!(edit.text, "*你好世界*");
    assert_eq!(edit.apply(text), "*你好世界*");
    assert_eq!(edit.cursor, "*你好世界".len());
}

#[test]
fn wrapping_keeps_the_original_text_untouched() {
    let text = "前 中 后";
    let selection = text.find('中').unwrap();

    for kind in [Markup::Bold, Markup::Italic, Markup::Super, Markup::Math] {
        let edit = edit(text, selection..selection + '中'.len_utf8(), kind);
        let out = edit.apply(text);

        assert!(out.contains('中'), "{kind:?} 把选中的字搞丢了：{out:?}");
        assert!(
            out.starts_with("前 "),
            "{kind:?} 动了选区之前的内容：{out:?}"
        );
        assert!(out.ends_with(" 后"), "{kind:?} 动了选区之后的内容：{out:?}");
    }
}

#[test]
fn the_heading_marker_goes_to_the_line_start() {
    let text = "第一行\n第二行";
    let at = text.find('二').unwrap();
    let line_start = text.find('\n').unwrap() + 1;

    let edit = edit(text, at..at, Markup::HeadingLevel1);

    assert_eq!(
        edit.range,
        line_start..line_start,
        "该插在第二行行首，不是光标处"
    );
    assert_eq!(edit.apply(text), "第一行\n= 第二行");
}

#[test]
fn the_heading_marker_works_on_the_first_line() {
    let edit = edit("正文", 3..3, Markup::HeadingLevel1);

    assert_eq!(edit.range, 0..0);
    assert_eq!(edit.apply("正文"), "= 正文");
}

#[test]
fn the_image_button_leaves_the_cursor_inside_the_quotes() {
    let text = "";
    let edit = edit(text, 0..0, Markup::Image);
    let out = edit.apply(text);

    assert_eq!(out, "#image(\"\")");
    assert_eq!(&out[..edit.cursor], "#image(\"", "光标该在引号里");
}

#[test]
fn the_table_button_inserts_a_skeleton() {
    let edit = edit("", 0..0, Markup::Table);

    assert!(edit.text.contains("#table("), "{}", edit.text);
    assert!(edit.text.contains("columns:"), "{}", edit.text);
    assert_eq!(edit.cursor, edit.text.len(), "光标落在骨架末尾");
}

#[test]
fn an_out_of_range_selection_is_clamped() {
    let (from, to) = (3usize, 1usize);

    for selection in [5..99, 99..99, from..to] {
        let edit = edit("abc", selection.clone(), Markup::Bold);
        let out = edit.apply("abc");

        assert!(out.contains("abc"), "{selection:?} 把原文弄坏了：{out:?}");
        assert!(edit.cursor <= out.len());
    }
}

#[test]
fn every_button_produces_a_sane_edit() {
    let text = "一段正文，带中文。";
    let at = text.find('中').unwrap();

    for kind in Markup::all_buttons() {
        let edit = edit(text, at..at + '中'.len_utf8(), kind);
        let out = edit.apply(text);

        assert!(
            out.is_char_boundary(edit.cursor),
            "{kind:?} 的光标落在了半个字符上：{out:?}"
        );
        assert!(
            edit.range.start <= edit.range.end,
            "{kind:?} 的范围反了：{edit:?}"
        );
    }
}

#[test]
fn a_link_leaves_the_cursor_inside_the_quotes() {
    assert_eq!(
        edit("ab", 1..1, Markup::Link),
        Edit { range: 1..1, text: "#link(\"\")[]".to_string(), cursor: 8 }
    );
}

#[test]
fn a_color_wraps_what_is_selected() {
    let done = edit("红字", 0..6, Markup::TextColor("red"));
    assert_eq!(done.text, "#text(fill: red)[红字]");
    assert_eq!(done.cursor, "#text(fill: red)[红字".len());
}

#[test]
fn what_was_inserted_is_said() {
    assert_eq!(inserted_message(Markup::Table), "已插入表格");
    assert_eq!(inserted_message(Markup::Bold), "已插入B");
}

#[test]
fn every_button_says_what_it_does() {
    for kind in Markup::all_buttons() {
        assert!(!kind.label().is_empty());
        assert!(!kind.hint().is_empty());
    }
    assert_eq!(Markup::Quote.hint(), "包住选中：引用块");
}

#[test]
fn a_link_goes_around_what_is_selected() {
    let done = edit("去官网看", 3..9, Markup::Link);
    assert_eq!(done.range, 3..9);
    assert_eq!(done.apply("去官网看"), "去#link(\"\")[官网]看");
    assert_eq!(done.cursor, "去#link(\"".len(), "光标落在引号里");
}

#[test]
fn hints_say_what_goes_around_the_selection() {
    for kind in Markup::all_buttons() {
        let around = edit("一二三", 3..6, kind).range == (3..6);
        assert_eq!(kind.hint().starts_with("包住选中"), around, "{kind:?}");
    }
}

#[test]
fn a_selection_outside_the_text_is_moved_into_it() {
    for kind in Markup::all_buttons() {
        assert_eq!(edit("一二", 3..99, kind), edit("一二", 3..6, kind));
        assert_eq!(edit("一二", 6..3, kind), edit("一二", 6..6, kind));
        assert_eq!(edit("一二", 50..60, kind), edit("一二", 6..6, kind));
    }
}
