//! What a round of editing works on, and where its answer lands.

use typst_live::ai_scope::{
    floor_char_boundary, landing, line_at, line_span, paragraph_range, splice_at, AiScope, Landing,
    ScopeChoice,
};

fn doc() -> String {
    "a\nb\nc\nd\ne\nf\ng\nh\n".to_string()
}

#[test]
fn paragraph_takes_pad_lines_around_the_cursor() {
    let doc = doc();
    let range = paragraph_range(&doc, 6, 2);
    assert_eq!(&doc[range], "b\nc\nd\ne\nf\n");
}

#[test]
fn paragraph_clamps_at_the_document_edges() {
    let doc = doc();
    assert_eq!(&doc[paragraph_range(&doc, 0, 5)], "a\nb\nc\nd\ne\nf\n");
    assert_eq!(
        &doc[paragraph_range(&doc, doc.len() - 1, 5)],
        "c\nd\ne\nf\ng\nh\n"
    );
    assert_eq!(&doc[paragraph_range(&doc, doc.len(), 2)], "g\nh\n");
}

#[test]
fn paragraph_of_an_empty_document_is_empty() {
    assert_eq!(paragraph_range("", 0, 5), 0..0);
}

#[test]
fn paragraph_on_a_never_newline_document_is_the_whole_thing() {
    let doc = "一整行没有换行";
    assert_eq!(paragraph_range(doc, 6, 5), 0..doc.len());
}

#[test]
fn paragraph_survives_a_cursor_inside_a_character() {
    let doc = "排版\n第二行\n";
    let range = paragraph_range(doc, 1, 0);
    assert_eq!(&doc[range], "排版\n");
}

#[test]
fn paragraph_with_crlf_lines() {
    let doc = "a\r\nb\r\nc\r\n";
    assert_eq!(&doc[paragraph_range(doc, 3, 0)], "b\r\n");
}

#[test]
fn line_numbers_are_one_based_and_inclusive() {
    let doc = doc();
    assert_eq!(line_at(&doc, 0), 1);
    assert_eq!(line_at(&doc, 2), 2); // "b"
    assert_eq!(line_at(&doc, doc.len()), 9);

    let range = paragraph_range(&doc, 4, 1);
    assert_eq!(&doc[range.clone()], "b\nc\nd\n");
    assert_eq!(line_span(&doc, &range), (2, 4));
}

#[test]
fn empty_range_reports_a_single_line() {
    let doc = doc();
    assert_eq!(line_span(&doc, &(6..6)), (4, 4));
    assert_eq!(line_span("", &(0..0)), (1, 1));
}

#[test]
fn splice_replaces_the_range_and_reports_the_caret() {
    let (out, caret) = splice_at("abcdef", 2..4, "XY");
    assert_eq!(out, "abXYef");
    assert_eq!(caret, 4); // 光标停在 "XY" 之后
}

#[test]
fn splice_with_an_empty_range_is_an_insert() {
    let (out, caret) = splice_at("abef", 2..2, "CD");
    assert_eq!(out, "abCDef");
    assert_eq!(caret, 4);
}

#[test]
fn splice_clamps_out_of_range_and_character_boundaries() {
    let (out, caret) = splice_at("abc", 99..200, "Z");
    assert_eq!(out, "abcZ");
    assert_eq!(caret, 4);
    let doc = "排版中文";
    let at = floor_char_boundary(doc, 1);
    assert_eq!(at, 0);
    let (out, _) = splice_at(doc, at..at, "【");
    assert_eq!(out, "【排版中文");
}

#[test]
fn selection_and_paragraph_replace_in_place() {
    let main = "D:/w/正文.typ";
    assert_eq!(
        landing(&AiScope::Selection(3..9), main),
        Landing::Replace(3..9)
    );
    assert_eq!(
        landing(&AiScope::Paragraph(10..50), main),
        Landing::Replace(10..50)
    );
}

#[test]
fn document_and_insert() {
    let main = "D:/w/正文.typ";
    assert_eq!(landing(&AiScope::Document, main), Landing::WholeDocument);
    assert_eq!(
        landing(&AiScope::Insert { at: 7 }, main),
        Landing::Insert { at: 7 }
    );
}

#[test]
fn the_open_file_is_the_editor_version() {
    let path = "D:/w/正文.typ".to_string();
    assert_eq!(
        landing(&AiScope::File(path.clone()), &path),
        Landing::WholeDocument
    );
}

#[test]
fn another_file_is_written_where_it_lives() {
    let other = "D:/w/附录.typ".to_string();
    assert_eq!(
        landing(&AiScope::File(other.clone()), "D:/w/正文.typ"),
        Landing::File(other)
    );
}

#[test]
fn scope_buttons_are_labelled() {
    assert_eq!(ScopeChoice::Selection.label(), "选区");
    assert_eq!(ScopeChoice::Paragraph.label(), "光标段落");
    assert_eq!(ScopeChoice::Document.label(), "全文");
    assert_eq!(ScopeChoice::Insert.label(), "插入");
}

#[test]
fn putting_the_old_piece_back_undoes_a_splice() {
    let doc = "前面中间后面";
    for (from, to) in [(6, 12), (7, 13), (0, 99), (12, 3)] {
        let start = floor_char_boundary(doc, from);
        let end = floor_char_boundary(doc, to).max(start);
        let (out, caret) = splice_at(doc, from..to, "替换的字");
        assert_eq!(splice_at(&out, start..caret, &doc[start..end]).0, doc);
    }
}
