//! The directory tree.

use typst_live::tree::{
    build_file_items, count_nodes, descends, file_kind, hidden, is_heavy_dir, nodes_to_tree_items,
    roots, scan_dir, shows, subdirs, Entry, FileKind, FsNode,
};

fn node(path: &str, is_dir: bool, children: Vec<FsNode>) -> FsNode {
    let name = path.rsplit('/').next().unwrap().to_string();
    FsNode { path: path.to_string(), name, is_dir, children }
}

fn fixture() -> Vec<FsNode> {
    scan_dir(
        Some(vec![
            node("w/a.typ", false, vec![]),
            node("w/sub", true, scan_dir(Some(vec![node("w/sub/b.typ", false, vec![])]), 1)),
            node("w/target", true, scan_dir(Some(vec![node("w/target/skip.typ", false, vec![])]), 1)),
            node("w/.hidden", false, vec![]),
        ]),
        0,
    )
}

fn entry(name: &str, is_dir: bool) -> Entry {
    Entry { name: name.to_string(), is_dir, is_file: !is_dir }
}

#[test]
fn heavy_dirs_are_skipped() {
    for name in [".git", ".cargo", "target", "node_modules", "dist", "build"] {
        assert!(is_heavy_dir(name), "`{name}` 该被跳过");
    }
    for name in ["src", "docs", "assets", "crates"] {
        assert!(!is_heavy_dir(name), "`{name}` 不该被跳过");
    }
}

#[test]
fn scanning_skips_target_and_hidden_files() {
    let names = |nodes: &[FsNode]| -> Vec<String> { nodes.iter().map(|n| n.name.clone()).collect() };

    let top = fixture();
    let top_names = names(&top);

    assert!(top_names.contains(&"a.typ".to_string()), "{top_names:?}");
    assert!(top_names.contains(&"sub".to_string()), "{top_names:?}");
    assert!(!top_names.contains(&"target".to_string()), "重型目录该跳过：{top_names:?}");
    assert!(!top_names.contains(&".hidden".to_string()), "隐藏文件该跳过：{top_names:?}");

    assert_eq!(top_names, vec!["sub".to_string(), "a.typ".to_string()]);

    let sub = top.iter().find(|n| n.name == "sub").unwrap();
    assert_eq!(names(&sub.children), vec!["b.typ".to_string()]);
}

#[test]
fn scanning_a_missing_dir_is_empty_not_a_panic() {
    assert!(scan_dir(None, 0).is_empty());
}

#[test]
fn expansion_state_survives_a_rebuild() {
    let sub_id = "w/sub".to_string();

    let collapsed = build_file_items("w", &fixture(), &vec![]);
    assert!(!collapsed[0].children[0].expanded, "默认不该展开子目录");

    let rebuilt = build_file_items("w", &fixture(), &vec![sub_id]);

    assert!(rebuilt[0].expanded, "根条目总是展开的");
    assert!(rebuilt[0].children[0].expanded, "展开状态该被恢复");
}

#[test]
fn the_root_entry_is_named_after_the_folder() {
    let items = build_file_items("/tmp/naming", &vec![], &vec![]);

    assert_eq!(items.len(), 1);
    assert_eq!(items[0].label, "naming");
}

#[test]
fn subdirs_lists_only_visible_directories() {
    let listing = Some(vec![
        entry("b", true),
        entry("a", true),
        entry(".hidden", true),
        entry("target", true),
        entry("文件.typ", false),
    ]);
    let dirs: Vec<String> = subdirs("subdirs", &listing)
        .into_iter()
        .map(|p| p.rsplit('/').next().unwrap().to_string())
        .collect();

    assert_eq!(dirs, vec!["a", "b"], "该只列可见目录，且排序");
}

#[test]
fn subdirs_of_a_missing_dir_is_empty() {
    assert!(subdirs("C:/这个目录不存在-typst-live", &None).is_empty());
}

#[test]
fn roots_is_never_empty() {
    assert!(!roots(&vec![]).is_empty());
    assert_eq!(roots(&vec!['C', 'D']), vec!["C:\\", "D:\\"]);
}

#[test]
fn nodes_are_counted_at_every_depth() {
    assert_eq!(count_nodes(&fixture()), 3);
    assert_eq!(count_nodes(&vec![]), 0);
}

#[test]
fn items_keep_the_shape_of_the_nodes() {
    let items = nodes_to_tree_items(&fixture(), &vec![]);
    assert_eq!(items.len(), 2);
    assert_eq!(items[0].id, "w/sub");
    assert!(items[0].is_dir);
    assert_eq!(items[0].children[0].label, "b.typ");
}

#[test]
fn two_files_of_git_are_shown_though_hidden() {
    assert!(hidden(".gitignore"));
    assert!(shows(".gitignore", false));
    assert!(shows(".gitattributes", false));
    assert!(!shows(".env", false));
    assert!(!shows("node_modules", true));
    assert!(shows("node_modules", false));
}

#[test]
fn a_directory_that_lies_too_deep_shows_nothing() {
    assert!(descends(12));
    assert!(!descends(13));
    assert!(scan_dir(Some(vec![node("w/a", false, vec![])]), 13).is_empty());
}

#[test]
fn files_are_told_apart_by_their_endings() {
    assert_eq!(file_kind("a.typ"), FileKind::Source);
    assert_eq!(file_kind("a.EXE"), FileKind::Program);
    assert_eq!(file_kind("a.o"), FileKind::Object);
    assert_eq!(file_kind("图.webp"), FileKind::Picture);
    assert_eq!(file_kind("a.pdf"), FileKind::Pdf);
    assert_eq!(file_kind("a.7z"), FileKind::Archive);
    assert_eq!(file_kind("a.csv"), FileKind::Office);
    assert_eq!(file_kind("README"), FileKind::Other);
}

#[test]
fn every_level_is_put_in_order() {
    let tree = scan_dir(
        Some(vec![
            node("w/z.typ", false, vec![node("w/z.typ/odd", false, vec![])]),
            node(
                "w/sub",
                true,
                vec![
                    node("w/sub/b.typ", false, vec![]),
                    node("w/sub/.git", true, vec![]),
                    node("w/sub/a.typ", false, vec![]),
                    node("w/sub/inner", true, vec![]),
                    node("w/sub/target", true, vec![]),
                ],
            ),
        ]),
        0,
    );
    assert_eq!(tree[0].name, "sub");
    let names: Vec<&str> = tree[0].children.iter().map(|n| n.name.as_str()).collect();
    assert_eq!(names, vec!["inner", "a.typ", "b.typ"]);
    assert!(tree[1].children.is_empty(), "文件底下没有东西");
}
