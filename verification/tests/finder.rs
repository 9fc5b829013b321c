//! Finding files by a few letters.

use typst_live::finder::{rank, score, Scan};
use typst_live::tree::Entry;

fn paths(list: &[&str]) -> Vec<String> {
    list.iter().map(|s| s.to_string()).collect()
}

#[test]
fn a_subsequence_matches() {
    assert!(score("utl", "src/util.rs").is_some(), "u-t-l 按序出现");
    assert!(score("srcutil", "src/util.rs").is_some(), "斜杠可以跳过");
}

#[test]
fn out_of_order_does_not_match() {
    assert_eq!(score("lu", "src/util.rs"), None, "u 在 l 之前，不算匹配");
    assert_eq!(score("xyz", "src/util.rs"), None);
}

#[test]
fn matching_is_case_insensitive() {
    assert!(score("UTIL", "src/util.rs").is_some());
    assert!(score("util", "src/UTIL.rs").is_some());
}

#[test]
fn consecutive_beats_scattered() {
    let tight = score("util", "util.rs").unwrap();
    let loose = score("util", "u_t_i_l.rs").unwrap();

    assert!(tight > loose, "连续 {tight} 应高于散落 {loose}");
}

#[test]
fn word_boundary_beats_middle_of_word() {
    let boundary = score("util", "src/util.rs").unwrap();
    let middle = score("util", "src/xutil.rs").unwrap();

    assert!(boundary > middle, "词首 {boundary} 应高于词中 {middle}");
}

#[test]
fn filename_beats_directory() {
    let in_name = score("util", "src/util.rs").unwrap();
    let in_dir = score("util", "util/x.rs").unwrap();

    assert!(
        in_name > in_dir,
        "文件名命中 {in_name} 应高于目录名命中 {in_dir}"
    );
}

#[test]
fn an_empty_query_matches_everything() {
    assert_eq!(score("", "anything"), Some(0));
    assert_eq!(score("   ", "anything"), Some(0), "纯空格等同空");
}

#[test]
fn ranking_puts_the_best_first() {
    let files = paths(&[
        "chapters/intro.typ",
        "util/helpers.rs",
        "src/util.rs",
        "main.typ",
    ]);

    let ranked = rank("util", &files, 10);

    assert_eq!(ranked.len(), 2, "只有两个含 u-t-i-l 的");
    assert_eq!(
        ranked[0],
        "src/util.rs",
        "文件名精确命中该排第一，实际 {ranked:?}"
    );
}

#[test]
fn ranking_respects_the_limit() {
    let files = paths(&["a.typ", "b.typ", "c.typ", "d.typ"]);

    assert_eq!(rank("typ", &files, 2).len(), 2);
}

#[test]
fn ties_are_broken_deterministically() {
    let files = paths(&["b/x.typ", "a/x.typ", "c/x.typ"]);

    let first = rank("x.typ", &files, 3);
    let second = rank("x.typ", &files, 3);

    assert_eq!(first, second, "两次排序结果必须一致");
    assert_eq!(first[0], "a/x.typ", "字典序小的在前");
}

#[test]
fn cjk_filenames_work() {
    assert!(score("报告", "文档/报告.typ").is_some());
    assert!(score("文档", "文档/报告.typ").is_some());
}

fn file(name: &str) -> Entry {
    Entry { name: name.to_string(), is_dir: false, is_file: true }
}

fn dir(name: &str) -> Entry {
    Entry { name: name.to_string(), is_dir: true, is_file: false }
}

fn scan(listing: impl Fn(&str) -> Vec<Entry>, limit: usize) -> Vec<String> {
    let mut scan = Scan::new(limit);
    while let Some(at) = scan.next_dir() {
        scan.feed(&at, &listing(&at.dir));
    }
    scan.finish()
}

#[test]
fn scanning_finds_files_and_skips_noise() {
    let found = scan(
        |at| match at {
            "" => vec![
                dir("chapters"),
                dir("target"),
                dir(".git"),
                file("main.typ"),
                file(".hidden.typ"),
            ],
            "chapters" => vec![file("intro.typ")],
            "target" => vec![dir("debug")],
            ".git" => vec![file("config")],
            _ => vec![file("junk.typ")],
        },
        100,
    );
    let names: Vec<String> = found.iter().map(|p| p.replace('\\', "/")).collect();

    assert!(names.contains(&"main.typ".to_string()), "{names:?}");
    assert!(names.contains(&"chapters/intro.typ".to_string()), "{names:?}");
    assert!(!names.iter().any(|n| n.contains("target")), "该跳过 target：{names:?}");
    assert!(!names.iter().any(|n| n.contains(".git")), "该跳过 .git：{names:?}");
    assert!(!names.iter().any(|n| n.contains("hidden")), "该跳过隐藏文件：{names:?}");
    assert_eq!(names, vec!["chapters/intro.typ", "main.typ"]);
}

#[test]
fn scanning_respects_the_limit() {
    let all = |_: &str| (0..20).map(|i| file(&format!("f{i}.typ"))).collect();
    assert!(scan(all, 5).len() <= 5);
    assert_eq!(scan(all, 5), vec!["f0.typ", "f1.typ", "f2.typ", "f3.typ", "f4.typ"]);
}

#[test]
fn scanning_a_missing_directory_is_empty_not_a_panic() {
    assert!(scan(|_| Vec::new(), 10).is_empty());
}

#[test]
fn scanning_stops_in_the_depth() {
    let found = scan(|_| vec![dir("d"), file("f")], 1000);
    assert_eq!(found.len(), 13);
    assert!(found.contains(&"d/d/d/d/d/d/d/d/d/d/d/d/f".to_string()), "{found:?}");
}

#[test]
fn nothing_below_a_hidden_or_heavy_directory_is_found() {
    let found = scan(
        |at| match at.rsplit('/').next() {
            Some("a") => vec![dir("node_modules"), dir(".cache"), dir("b"), file(".x"), file("build")],
            Some("") => vec![dir("a")],
            _ => vec![file("f")],
        },
        100,
    );
    assert_eq!(found, vec!["a/b/f", "a/build"]);
}

#[test]
fn a_full_scan_leaves_the_rest_alone() {
    let mut scan = Scan::new(1);
    let at = scan.next_dir().unwrap();
    scan.feed(&at, &vec![dir("d"), file("f"), dir("e")]);
    assert!(scan.next_dir().is_none());
    assert_eq!(scan.todo.len(), 1);
    assert_eq!(scan.finish(), vec!["f"]);
}

#[test]
fn a_scan_for_no_files_finds_none() {
    assert!(scan(|_| vec![file("f")], 0).is_empty());
}

#[test]
fn the_order_of_the_candidates_does_not_matter() {
    let list: Vec<String> =
        ["b/x.typ", "a/x.typ", "x.typ", "a\\y.typ", "n.md"].iter().map(|s| s.to_string()).collect();
    let mut turned = list.clone();
    turned.reverse();
    assert_eq!(rank("x", &list, 10), rank("x", &turned, 10));
    assert_eq!(rank("typ", &list, 3), rank("typ", &turned, 3));
}
