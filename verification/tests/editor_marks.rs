//! Marks in the editor: brackets, and lines with errors.

use typst_live::editor_marks::{active_pair, bracket_pairs, marks, MarkState};

fn depths(pairs: &[(usize, usize, usize)]) -> Vec<usize> {
    pairs.iter().map(|(_, _, d)| *d).collect()
}

#[test]
fn pairs_are_found_with_depth() {
    let pairs = bracket_pairs("f(g(x))");

    assert_eq!(pairs.len(), 2);
    assert_eq!(depths(&pairs), vec![1, 0]);
}

#[test]
fn brackets_in_comments_and_strings_are_ignored() {
    assert!(bracket_pairs("// ( 只有左括号\n").is_empty());
    assert!(bracket_pairs("/* ( */").is_empty());
    assert!(bracket_pairs("\"( 括号在字符串里\"").is_empty());
    assert!(bracket_pairs("`( 原始串 `").is_empty());
}

#[test]
fn nested_block_comments_are_skipped() {
    assert!(bracket_pairs("/* ( /* ) */ */").is_empty());
}

#[test]
fn multiline_pairs_work() {
    let pairs = bracket_pairs("#table(\n  columns: 3,\n  [a], [b],\n)\n");

    assert_eq!(pairs.len(), 3);
}

#[test]
fn unmatched_brackets_do_not_pair() {
    assert!(bracket_pairs("f(1, 2").is_empty());
    assert!(bracket_pairs("f1, 2)").is_empty());
    assert!(bracket_pairs("f(1]").is_empty());
}

#[test]
fn cursor_picks_the_innermost_pair() {
    let pairs = bracket_pairs("f(g(x))");

    assert_eq!(active_pair(&pairs, 3), Some((3, 5)), "内层 `(`");
    assert_eq!(active_pair(&pairs, 6), Some((1, 6)), "外层 `)`");
    assert_eq!(active_pair(&pairs, 4), Some((3, 5)));
    assert_eq!(active_pair(&pairs, 2), Some((1, 6)));
    assert_eq!(active_pair(&pairs, 0), None);
    assert_eq!(active_pair(&pairs, 8), None);
}

#[test]
fn multibyte_text_is_safe() {
    let pairs = bracket_pairs("#table([中文], [英文])");

    assert_eq!(pairs.len(), 3, "外层 + 两个 [");
    let _ = active_pair(&pairs, 8);
}

#[test]
fn lines_with_errors_and_the_pair_at_the_cursor_are_marked() {
    let state = MarkState {
        error_lines: vec![(1, 1)],
        warning_lines: vec![(0, 0)],
        cursor: 1,
        error_color: Some(7),
        warning_color: None,
        bracket_active: Some(9),
    };
    let found = marks("f(x)\n错行\n", &state);
    let shown: Vec<(usize, usize, usize, usize, u32)> = found
        .iter()
        .map(|m| (m.start.line, m.start.character, m.end.line, m.end.character, m.color))
        .collect();
    assert_eq!(shown, vec![(1, 0, 1, 2, 7), (0, 1, 0, 2, 9), (0, 3, 0, 4, 9)]);
}

#[test]
fn a_raw_string_ends_with_as_many_backticks_as_it_began_with() {
    assert!(bracket_pairs("```a`()b```").is_empty(), "里面的单个反引号不算收尾");
    assert!(bracket_pairs("````(``` )````").is_empty());
    assert_eq!(bracket_pairs("``()"), vec![(2, 3, 0)], "两个反引号是空的原始串");
    assert_eq!(bracket_pairs("`(`()"), vec![(3, 4, 0)]);
    assert_eq!(bracket_pairs("```(```()"), vec![(7, 8, 0)]);
    assert!(bracket_pairs("```()").is_empty(), "没收尾就一直到末尾");
}
