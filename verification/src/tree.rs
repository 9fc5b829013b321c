//! The directory tree: which entries are shown, and in what order.

use vstd::prelude::*;
use vstd::string::*;

use crate::chars;
use crate::order;
use crate::order::{text_before, Contest};
use crate::path;
use crate::path::{extension_of, joined_path, name_of};
use crate::text;
use crate::text::views;

verus! {

/// How deep directories are looked into.
pub const MAX_DEPTH: usize = 12;

/// Directories that are not worth looking into.
pub open spec fn is_heavy(name: Seq<char>) -> bool {
    ||| name == ".git"@
    ||| name == ".cargo"@
    ||| name == "target"@
    ||| name == "node_modules"@
    ||| name == "dist"@
    ||| name == "build"@
    ||| name == ".next"@
    ||| name == ".venv"@
    ||| name == "venv"@
    ||| name == "__pycache__"@
    ||| name == ".idea"@
    ||| name == ".vs"@
}

/// Whether a directory is not worth looking into.
pub fn is_heavy_dir(name: &str) -> (r: bool)
    ensures
        r == is_heavy(name@),
{
    text::same(name, ".git") || text::same(name, ".cargo") || text::same(name, "target")
        || text::same(name, "node_modules") || text::same(name, "dist") || text::same(name, "build")
        || text::same(name, ".next") || text::same(name, ".venv") || text::same(name, "venv")
        || text::same(name, "__pycache__") || text::same(name, ".idea") || text::same(name, ".vs")
}

/// A name that begins with a dot.
pub open spec fn is_hidden(name: Seq<char>) -> bool {
    name.len() > 0 && name[0] == '.'
}

/// Whether a name begins with a dot.
pub fn hidden(name: &str) -> (r: bool)
    ensures
        r == is_hidden(name@),
{
    let v = text::chars_of(name);
    v.len() > 0 && v[0] == '.'
}

/// The kind of a file, by which its icon is chosen.
#[derive(Clone, Copy, PartialEq, Eq, Debug, Structural)]
pub enum FileKind {
    /// Source and other text.
    Source,
    /// Programs and libraries.
    Program,
    /// What compilers leave behind.
    Object,
    /// Pictures.
    Picture,
    /// PDF documents.
    Pdf,
    /// Archives.
    Archive,
    /// Tables and office documents.
    Office,
    /// Anything else.
    Other,
}

/// The kind that an extension in small letters means.
pub open spec fn kind_of(ext: Seq<char>) -> FileKind {
    if ext == "typ"@ || ext == "rs"@ || ext == "py"@ || ext == "js"@ || ext == "ts"@ || ext
        == "json"@ || ext == "toml"@ || ext == "yaml"@ || ext == "yml"@ || ext == "md"@ || ext
        == "sh"@ || ext == "bat"@ || ext == "cmd"@ || ext == "html"@ || ext == "css"@ || ext
        == "xml"@ || ext == "scm"@ || ext == "lock"@ {
        FileKind::Source
    } else if ext == "exe"@ || ext == "msi"@ || ext == "dll"@ || ext == "so"@ || ext == "bin"@ || ext
        == "jar"@ || ext == "wasm"@ {
        FileKind::Program
    } else if ext == "pdb"@ || ext == "obj"@ || ext == "o"@ || ext == "lib"@ || ext == "a"@ || ext
        == "pyc"@ {
        FileKind::Object
    } else if ext == "png"@ || ext == "jpg"@ || ext == "jpeg"@ || ext == "gif"@ || ext == "svg"@
        || ext == "webp"@ || ext == "ico"@ || ext == "bmp"@ {
        FileKind::Picture
    } else if ext == "pdf"@ {
        FileKind::Pdf
    } else if ext == "zip"@ || ext == "tar"@ || ext == "gz"@ || ext == "7z"@ || ext == "rar"@ || ext
        == "bz2"@ || ext == "xz"@ {
        FileKind::Archive
    } else if ext == "xlsx"@ || ext == "xls"@ || ext == "csv"@ || ext == "docx"@ || ext == "doc"@
        || ext == "pptx"@ || ext == "ppt"@ {
        FileKind::Office
    } else {
        FileKind::Other
    }
}

/// The extension of a path in small letters, or nothing.
pub open spec fn lower_extension(p: Seq<char>) -> Seq<char> {
    match extension_of(p) {
        Some(e) => e.map_values(|c: char| chars::ascii_lower(c)),
        None => Seq::empty(),
    }
}

fn extension_in_small_letters(p: &str) -> (r: String)
    ensures
        r@ == lower_extension(p@),
{
    match path::extension(p) {
        Some(e) => chars::lower_ascii(e.as_str()),
        None => String::new(),
    }
}

/// The kind of the file that a path leads to.
pub fn file_kind(p: &str) -> (r: FileKind)
    ensures
        r == kind_of(lower_extension(p@)),
{
    let low = extension_in_small_letters(p);
    let e = low.as_str();
    if text::same(e, "typ") || text::same(e, "rs") || text::same(e, "py") || text::same(e, "js")
        || text::same(e, "ts") || text::same(e, "json") || text::same(e, "toml") || text::same(
        e,
        "yaml",
    ) || text::same(e, "yml") || text::same(e, "md") || text::same(e, "sh") || text::same(e, "bat")
        || text::same(e, "cmd") || text::same(e, "html") || text::same(e, "css") || text::same(
        e,
        "xml",
    ) || text::same(e, "scm") || text::same(e, "lock") {
        FileKind::Source
    } else if text::same(e, "exe") || text::same(e, "msi") || text::same(e, "dll") || text::same(
        e,
        "so",
    ) || text::same(e, "bin") || text::same(e, "jar") || text::same(e, "wasm") {
        FileKind::Program
    } else if text::same(e, "pdb") || text::same(e, "obj") || text::same(e, "o") || text::same(
        e,
        "lib",
    ) || text::same(e, "a") || text::same(e, "pyc") {
        FileKind::Object
    } else if text::same(e, "png") || text::same(e, "jpg") || text::same(e, "jpeg") || text::same(
        e,
        "gif",
    ) || text::same(e, "svg") || text::same(e, "webp") || text::same(e, "ico") || text::same(
        e,
        "bmp",
    ) {
        FileKind::Picture
    } else if text::same(e, "pdf") {
        FileKind::Pdf
    } else if text::same(e, "zip") || text::same(e, "tar") || text::same(e, "gz") || text::same(
        e,
        "7z",
    ) || text::same(e, "rar") || text::same(e, "bz2") || text::same(e, "xz") {
        FileKind::Archive
    } else if text::same(e, "xlsx") || text::same(e, "xls") || text::same(e, "csv") || text::same(
        e,
        "docx",
    ) || text::same(e, "doc") || text::same(e, "pptx") || text::same(e, "ppt") {
        FileKind::Office
    } else {
        FileKind::Other
    }
}

/// An entry of the tree.
pub struct FsNode {
    pub path: String,
    pub name: String,
    pub is_dir: bool,
    pub children: Vec<FsNode>,
}

/// The tree shows an entry: not a directory that is not worth looking into, and
/// nothing hidden but two files of git.
pub open spec fn shown(name: Seq<char>, is_dir: bool) -> bool {
    &&& !(is_dir && is_heavy(name))
    &&& !is_hidden(name) || name == ".gitignore"@ || name == ".gitattributes"@
}

/// Whether the tree shows an entry.
pub fn shows(name: &str, is_dir: bool) -> (r: bool)
    ensures
        r == shown(name@, is_dir),
{
    if is_dir && is_heavy_dir(name) {
        return false;
    }
    !hidden(name) || text::same(name, ".gitignore") || text::same(name, ".gitattributes")
}

/// Entries told apart by whether they go first, then by name, then by place.
struct ByName {
    first: Vec<bool>,
    names: Vec<Vec<char>>,
}

/// Entry `i` goes before entry `j`: those that go first, then by name, then as
/// they came.
pub open spec fn entry_before(first: Seq<bool>, names: Seq<Seq<char>>, i: int, j: int) -> bool {
    if first[i] != first[j] {
        first[i]
    } else if names[i] != names[j] {
        text_before(names[i], names[j])
    } else {
        i < j
    }
}

pub open spec fn name_views(v: Seq<Vec<char>>) -> Seq<Seq<char>> {
    v.map_values(|n: Vec<char>| n@)
}

impl Contest for ByName {
    closed spec fn size(&self) -> nat {
        self.names@.len()
    }

    closed spec fn beats(&self, i: int, j: int) -> bool {
        entry_before(self.first@, name_views(self.names@), i, j)
    }

    proof fn strict(&self) {
        let n = name_views(self.names@);
        assert forall|i: int, j: int| #[trigger] self.beats(i, j) implies !self.beats(j, i) by {
            order::lemma_text_total(n[i], n[j]);
        }
        assert forall|i: int, j: int|
            0 <= i < self.size() && 0 <= j < self.size() && i != j implies (#[trigger] self.beats(
            i,
            j,
        ) || self.beats(j, i)) by {
            order::lemma_text_total(n[i], n[j]);
        }
        assert forall|i: int, j: int, k: int| #[trigger]
            self.beats(i, j) && #[trigger] self.beats(j, k) implies self.beats(i, k) by {
            order::lemma_text_total(n[i], n[j]);
            order::lemma_text_total(n[j], n[k]);
            order::lemma_text_total(n[i], n[k]);
            if text_before(n[i], n[j]) && text_before(n[j], n[k]) {
                order::lemma_text_transitive(n[i], n[j], n[k]);
            }
        }
    }

    closed spec fn ready(&self) -> bool {
        self.first@.len() == self.names@.len()
    }

    fn goes_before(&self, i: usize, j: usize) -> (r: bool) {
        if self.first[i] != self.first[j] {
            return self.first[i];
        }
        assert(name_views(self.names@)[i as int] == self.names@[i as int]@);
        assert(name_views(self.names@)[j as int] == self.names@[j as int]@);
        if order::is_text_before(&self.names[i], &self.names[j]) {
            proof {
                order::lemma_text_total(self.names@[i as int]@, self.names@[j as int]@);
            }
            return true;
        }
        if order::is_text_before(&self.names[j], &self.names[i]) {
            proof {
                order::lemma_text_total(self.names@[i as int]@, self.names@[j as int]@);
            }
            return false;
        }
        proof {
            order::lemma_text_total(self.names@[i as int]@, self.names@[j as int]@);
        }
        i < j
    }
}

/// The order in which the marked entries go.
pub open spec fn entries_in_order(
    first: Seq<bool>,
    names: Seq<Seq<char>>,
    chosen: spec_fn(int) -> bool,
    order: Seq<usize>,
) -> bool {
    &&& forall|k: int| 0 <= k < order.len() ==> (#[trigger] order[k]) < names.len() && chosen(
        order[k] as int,
    )
    &&& forall|i: usize| i < names.len() && chosen(i as int) ==> #[trigger] order.contains(i)
    &&& forall|j: int, k: int|
        0 <= j < k < order.len() ==> #[trigger] entry_before(
            first,
            names,
            order[j] as int,
            order[k] as int,
        )
}

fn order_entries(first: Vec<bool>, names: Vec<Vec<char>>, marked: &Vec<bool>) -> (r: Vec<usize>)
    requires
        first@.len() == names@.len(),
        marked@.len() == names@.len(),
    ensures
        entries_in_order(
            first@,
            name_views(names@),
            |i: int| 0 <= i < marked@.len() && marked@[i],
            r@,
        ),
{
    let ghost f = first@;
    let ghost n = name_views(names@);
    let c = ByName { first, names };
    let r = order::put_in_order(&c, marked);
    proof {
        let chosen = |i: int| 0 <= i < marked@.len() && marked@[i];
        assert forall|j: int, k: int| 0 <= j < k < r@.len() implies #[trigger] entry_before(
            f,
            n,
            r@[j] as int,
            r@[k] as int,
        ) by {
            assert(c.beats(r@[j] as int, r@[k] as int));
        }
        assert forall|k: int| 0 <= k < r@.len() implies (#[trigger] r@[k]) < n.len() && chosen(
            r@[k] as int,
        ) by {}
    }
    r
}

pub open spec fn node_names(v: Seq<FsNode>) -> Seq<Seq<char>> {
    v.map_values(|n: FsNode| n.name@)
}

pub open spec fn node_dirs(v: Seq<FsNode>) -> Seq<bool> {
    v.map_values(|n: FsNode| n.is_dir)
}

/// The order in which the tree shows the entries of a directory: directories first, then
/// by name, and only those that are shown.
pub open spec fn display_order(nodes: Seq<FsNode>, order: Seq<usize>) -> bool {
    entries_in_order(
        node_dirs(nodes),
        node_names(nodes),
        |i: int| 0 <= i < nodes.len() && shown(nodes[i].name@, nodes[i].is_dir),
        order,
    )
}

/// `out` is what the tree shows of a directory at `depth` with the entries `nodes`, each
/// with those that were listed in it: of every level the entries that are shown, in their
/// order. A file has nothing in it, and what lies too deep is not looked into.
pub open spec fn scanned(nodes: Seq<FsNode>, depth: int, out: Seq<FsNode>) -> bool
    decreases nodes,
{
    if depth > MAX_DEPTH {
        out.len() == 0
    } else {
        exists|order: Seq<usize>| #[trigger]
            display_order(nodes, order) && out.len() == order.len() && forall|k: int|
                0 <= k < out.len() && order[k] < nodes.len() ==> {
                    let from = nodes[order[k] as int];
                    &&& (#[trigger] out[k]).path@ == from.path@
                    &&& out[k].name@ == from.name@
                    &&& out[k].is_dir == from.is_dir
                    &&& if from.is_dir {
                        scanned(from.children@, depth + 1, out[k].children@)
                    } else {
                        out[k].children@.len() == 0
                    }
                }
    }
}

/// Entry `a` may stand before entry `b`: directories before files, then by name.
pub open spec fn may_precede(a: FsNode, b: FsNode) -> bool {
    if a.is_dir != b.is_dir {
        a.is_dir
    } else {
        a.name@ == b.name@ || text_before(a.name@, b.name@)
    }
}

/// Here and on every level below, entries are shown ones in their order, and files have
/// nothing in them.
pub open spec fn neat(nodes: Seq<FsNode>) -> bool
    decreases nodes,
{
    &&& forall|i: int|
        0 <= i < nodes.len() ==> {
            &&& shown((#[trigger] nodes[i]).name@, nodes[i].is_dir)
            &&& !nodes[i].is_dir ==> nodes[i].children@.len() == 0
            &&& neat(nodes[i].children@)
        }
    &&& forall|i: int, j: int| 0 <= i < j < nodes.len() ==> #[trigger] may_precede(nodes[i], nodes[j])
}

/// Whether a directory at this depth is looked into.
pub fn descends(depth: usize) -> (r: bool)
    ensures
        r == (depth <= MAX_DEPTH),
{
    depth <= MAX_DEPTH
}

/// What the tree shows of a directory at `depth`, of which `listing` holds the entries, and
/// each of these those that were listed in it. A directory that could not be listed or lies
/// too deep shows nothing.
pub fn scan_dir(listing: Option<Vec<FsNode>>, depth: usize) -> (r: Vec<FsNode>)
    ensures
        match listing {
            Some(nodes) => scanned(nodes@, depth as int, r@),
            None => r@.len() == 0,
        },
{
    match listing {
        Some(nodes) => scan_level(nodes, depth),
        None => Vec::new(),
    }
}

fn scan_level(nodes: Vec<FsNode>, depth: usize) -> (r: Vec<FsNode>)
    ensures
        scanned(nodes@, depth as int, r@),
    decreases nodes@,
{
    if depth > MAX_DEPTH {
        return Vec::new();
    }
    let ghost all = nodes@;
    let mut rest = nodes;
    let n: usize = rest.len();
    let mut first: Vec<bool> = Vec::new();
    let mut names: Vec<Vec<char>> = Vec::new();
    let mut marked: Vec<bool> = Vec::new();
    let mut i: usize = 0;
    while i < n
        invariant
            i <= n,
            n == rest@.len(),
            rest@ == all,
            first@.len() == i,
            names@.len() == i,
            marked@.len() == i,
            forall|k: int| 0 <= k < i ==> first@[k] == all[k].is_dir,
            forall|k: int| 0 <= k < i ==> (#[trigger] names@[k])@ == all[k].name@,
            forall|k: int| 0 <= k < i ==> marked@[k] == shown(all[k].name@, all[k].is_dir),
        decreases n - i,
    {
        first.push(rest[i].is_dir);
        names.push(text::chars_of(rest[i].name.as_str()));
        let on = shows(rest[i].name.as_str(), rest[i].is_dir);
        marked.push(on);
        i += 1;
    }
    assert(first@ =~= node_dirs(all));
    assert(name_views(names@) =~= node_names(all));
    let ghost marks = marked@;
    let order = order_entries(first, names, &marked);
    proof {
        let a = |i: int| 0 <= i < marks.len() && marks[i];
        let b = |i: int| 0 <= i < all.len() && shown(all[i].name@, all[i].is_dir);
        assert forall|k: int| 0 <= k < order@.len() implies (#[trigger] order@[k]) < node_names(
            all,
        ).len() && b(order@[k] as int) by {
            assert(a(order@[k] as int));
        }
        assert forall|i: usize| i < node_names(all).len() && b(i as int) implies #[trigger] order@.contains(
            i,
        ) by {
            assert(a(i as int));
        }
        assert(display_order(all, order@));
        lemma_order_distinct(node_dirs(all), node_names(all), order@);
    }
    let mut out: Vec<FsNode> = Vec::new();
    let mut k: usize = 0;
    while k < order.len()
        invariant
            k <= order@.len(),
            all == nodes@,
            depth <= MAX_DEPTH,
            rest@.len() == all.len(),
            out@.len() == k,
            forall|j: int| 0 <= j < order@.len() ==> (#[trigger] order@[j]) < all.len(),
            forall|i: int, j: int|
                0 <= i < j < order@.len() ==> #[trigger] order@[i] != #[trigger] order@[j],
            forall|j: int|
                k <= j < order@.len() ==> rest@[(#[trigger] order@[j]) as int]
                    == all[order@[j] as int],
            forall|j: int|
                0 <= j < k ==> {
                    let from = all[order@[j] as int];
                    &&& (#[trigger] out@[j]).path@ == from.path@
                    &&& out@[j].name@ == from.name@
                    &&& out@[j].is_dir == from.is_dir
                    &&& if from.is_dir {
                        scanned(from.children@, depth + 1, out@[j].children@)
                    } else {
                        out@[j].children@.len() == 0
                    }
                },
        decreases order@.len() - k,
    {
        let at: usize = order[k];
        let mut node = FsNode {
            path: String::new(),
            name: String::new(),
            is_dir: false,
            children: Vec::new(),
        };
        std::mem::swap(&mut node, &mut rest[at]);
        assert(node == all[at as int]);
        let FsNode { path, name, is_dir, children } = node;
        let inside = if is_dir {
            scan_level(children, depth + 1)
        } else {
            Vec::new()
        };
        out.push(FsNode { path, name, is_dir, children: inside });
        k += 1;
    }
    out
}

proof fn lemma_order_distinct(first: Seq<bool>, names: Seq<Seq<char>>, order: Seq<usize>)
    requires
        forall|j: int, k: int|
            0 <= j < k < order.len() ==> #[trigger] entry_before(
                first,
                names,
                order[j] as int,
                order[k] as int,
            ),
    ensures
        forall|i: int, j: int|
            0 <= i < j < order.len() ==> #[trigger] order[i] != #[trigger] order[j],
{
    assert forall|i: int, j: int| 0 <= i < j < order.len() implies #[trigger] order[i]
        != #[trigger] order[j] by {
        assert(entry_before(first, names, order[i] as int, order[j] as int));
    }
}

/// How many entries there are, those inside directories counted.
pub open spec fn total(nodes: Seq<FsNode>) -> nat
    decreases nodes,
{
    if nodes.len() == 0 {
        0
    } else {
        total(nodes.drop_last()) + 1 + total(nodes.last().children@)
    }
}

proof fn lemma_total_prefix(nodes: Seq<FsNode>, i: int)
    requires
        0 <= i < nodes.len(),
    ensures
        total(nodes.take(i + 1)) == total(nodes.take(i)) + 1 + total(nodes[i].children@),
{
    assert(nodes.take(i + 1).drop_last() =~= nodes.take(i));
}

proof fn lemma_total_grows(nodes: Seq<FsNode>, i: int)
    requires
        0 <= i <= nodes.len(),
    ensures
        total(nodes.take(i)) <= total(nodes),
    decreases nodes.len() - i,
{
    if i == nodes.len() {
        assert(nodes.take(i) =~= nodes);
    } else {
        lemma_total_prefix(nodes, i);
        lemma_total_grows(nodes, i + 1);
    }
}

/// How many entries there are, those inside directories counted.
pub fn count_nodes(nodes: &Vec<FsNode>) -> (r: usize)
    requires
        total(nodes@) <= usize::MAX,
    ensures
        r == total(nodes@),
    decreases nodes@,
{
    let mut n: usize = 0;
    let mut i: usize = 0;
    while i < nodes.len()
        invariant
            i <= nodes@.len(),
            total(nodes@) <= usize::MAX,
            n == total(nodes@.take(i as int)),
        decreases nodes@.len() - i,
    {
        proof {
            lemma_total_prefix(nodes@, i as int);
            lemma_total_grows(nodes@, i + 1);
        }
        let inside: usize = count_nodes(&nodes[i].children);
        n += 1 + inside;
        i += 1;
    }
    assert(nodes@.take(i as int) =~= nodes@);
    n
}

/// A row of the tree as it is shown.
pub struct TreeItem {
    /// The path that the row stands for.
    pub id: String,
    pub label: String,
    pub is_dir: bool,
    pub expanded: bool,
    pub children: Vec<TreeItem>,
}

/// `id` is among those that are open.
pub open spec fn is_expanded(expanded: Seq<String>, id: Seq<char>) -> bool {
    exists|k: int| 0 <= k < expanded.len() && (#[trigger] expanded[k])@ == id
}

fn expands(expanded: &Vec<String>, id: &String) -> (r: bool)
    ensures
        r == is_expanded(expanded@, id@),
{
    let mut i: usize = 0;
    while i < expanded.len()
        invariant
            i <= expanded@.len(),
            forall|k: int| 0 <= k < i ==> (#[trigger] expanded@[k])@ != id@,
        decreases expanded@.len() - i,
    {
        if expanded[i] == *id {
            assert(expanded@[i as int]@ == id@);
            return true;
        }
        i += 1;
    }
    false
}

/// The row shows the node: a directory is open if it is among those that are open.
pub open spec fn row_shows(t: TreeItem, n: FsNode, expanded: Seq<String>) -> bool
    decreases n, 1int,
{
    &&& t.id@ == n.path@
    &&& t.label@ == n.name@
    &&& t.is_dir == n.is_dir
    &&& t.expanded == (n.is_dir && is_expanded(expanded, n.path@))
    &&& if n.is_dir {
        rows_show(t.children@, n.children@, expanded)
    } else {
        t.children@.len() == 0
    }
}

/// The rows show the nodes, in order.
pub open spec fn rows_show(t: Seq<TreeItem>, n: Seq<FsNode>, expanded: Seq<String>) -> bool
    decreases n, 0int,
{
    &&& t.len() == n.len()
    &&& forall|i: int| 0 <= i < n.len() ==> row_shows(#[trigger] t[i], n[i], expanded)
}

fn item_of(node: &FsNode, expanded: &Vec<String>) -> (r: TreeItem)
    ensures
        row_shows(r, *node, expanded@),
    decreases node, 1int,
{
    if node.is_dir {
        let children = nodes_to_tree_items(&node.children, expanded);
        let open = expands(expanded, &node.path);
        TreeItem {
            id: node.path.clone(),
            label: node.name.clone(),
            is_dir: true,
            expanded: open,
            children,
        }
    } else {
        TreeItem {
            id: node.path.clone(),
            label: node.name.clone(),
            is_dir: false,
            expanded: false,
            children: Vec::new(),
        }
    }
}

/// The rows of the tree for its nodes.
pub fn nodes_to_tree_items(nodes: &Vec<FsNode>, expanded: &Vec<String>) -> (r: Vec<TreeItem>)
    ensures
        rows_show(r@, nodes@, expanded@),
    decreases nodes@, 0int,
{
    let mut out: Vec<TreeItem> = Vec::new();
    let mut i: usize = 0;
    while i < nodes.len()
        invariant
            i <= nodes@.len(),
            out@.len() == i,
            forall|k: int| 0 <= k < i ==> row_shows(#[trigger] out@[k], nodes@[k], expanded@),
        decreases nodes@.len() - i,
    {
        let item = item_of(&nodes[i], expanded);
        out.push(item);
        i += 1;
    }
    out
}

/// What the row of the root directory says: the directory's name, or the whole
/// path where it has none.
pub open spec fn root_label(root: Seq<char>) -> Seq<char> {
    match name_of(root) {
        Some(n) => n,
        None => root,
    }
}

/// The rows of the tree: one for the root directory, which is always open, and
/// inside it those of the nodes.
pub fn build_file_items(root: &str, nodes: &Vec<FsNode>, expanded: &Vec<String>) -> (r: Vec<
    TreeItem,
>)
    ensures
        r@.len() == 1,
        r@[0].id@ == root@,
        r@[0].label@ == root_label(root@),
        r@[0].is_dir,
        r@[0].expanded,
        rows_show(r@[0].children@, nodes@, expanded@),
{
    let label = match path::file_name(root) {
        Some(n) => n,
        None => root.to_owned(),
    };
    let children = nodes_to_tree_items(nodes, expanded);
    let mut out: Vec<TreeItem> = Vec::new();
    out.push(TreeItem { id: root.to_owned(), label, is_dir: true, expanded: true, children });
    out
}

/// What a listing says of an entry.
pub struct Entry {
    pub name: String,
    pub is_dir: bool,
    pub is_file: bool,
}

pub open spec fn entry_names(v: Seq<Entry>) -> Seq<Seq<char>> {
    v.map_values(|e: Entry| e.name@)
}

/// A directory that can be picked: neither hidden nor not worth looking into.
pub open spec fn pickable(e: Entry) -> bool {
    e.is_dir && !is_hidden(e.name@) && !is_heavy(e.name@)
}

/// `out` are the directories of a listing that can be picked, by name, each as a
/// path in `dir`. `order` says where each came from.
pub open spec fn listed(
    dir: Seq<char>,
    entries: Seq<Entry>,
    out: Seq<Seq<char>>,
    order: Seq<usize>,
) -> bool {
    &&& entries_in_order(
        entries.map_values(|e: Entry| true),
        entry_names(entries),
        |i: int| 0 <= i < entries.len() && pickable(entries[i]),
        order,
    )
    &&& out.len() == order.len()
    &&& forall|k: int|
        0 <= k < out.len() ==> #[trigger] out[k] == joined_path(dir, entries[order[k] as int].name@)
}

/// `r` are the directories in `dir` that can be picked, by name; none where `dir` could
/// not be listed.
pub open spec fn are_subdirs(
    r: Seq<Seq<char>>,
    dir: Seq<char>,
    listing: Option<Vec<Entry>>,
) -> bool {
    match listing {
        Some(entries) => exists|order: Seq<usize>| listed(dir, entries@, r, order),
        None => r.len() == 0,
    }
}

/// The directories in `dir` that can be picked, by name. A directory that could not
/// be listed has none.
pub fn subdirs(dir: &str, listing: &Option<Vec<Entry>>) -> (r: Vec<String>)
    ensures
        are_subdirs(views(r@), dir@, *listing),
{
    let entries = match listing {
        Some(entries) => entries,
        None => {
            return Vec::new();
        },
    };
    let n: usize = entries.len();
    let ghost all = entries@;
    let mut first: Vec<bool> = Vec::new();
    let mut names: Vec<Vec<char>> = Vec::new();
    let mut marked: Vec<bool> = Vec::new();
    let mut i: usize = 0;
    while i < n
        invariant
            i <= n,
            n == entries@.len(),
            all == entries@,
            first@.len() == i,
            names@.len() == i,
            marked@.len() == i,
            forall|k: int| 0 <= k < i ==> first@[k],
            forall|k: int| 0 <= k < i ==> (#[trigger] names@[k])@ == all[k].name@,
            forall|k: int| 0 <= k < i ==> marked@[k] == pickable(all[k]),
        decreases n - i,
    {
        first.push(true);
        names.push(text::chars_of(entries[i].name.as_str()));
        let name = entries[i].name.as_str();
        let on = entries[i].is_dir && !hidden(name) && !is_heavy_dir(name);
        marked.push(on);
        i += 1;
    }
    assert(first@ =~= all.map_values(|e: Entry| true));
    assert(name_views(names@) =~= entry_names(all));
    let ghost marks = marked@;
    let order = order_entries(first, names, &marked);
    proof {
        let a = |i: int| 0 <= i < marks.len() && marks[i];
        let b = |i: int| 0 <= i < all.len() && pickable(all[i]);
        assert forall|k: int| 0 <= k < order@.len() implies (#[trigger] order@[k]) < entry_names(
            all,
        ).len() && b(order@[k] as int) by {
            assert(a(order@[k] as int));
        }
        assert forall|i: usize| i < entry_names(all).len() && b(i as int) implies #[trigger] order@.contains(
            i,
        ) by {
            assert(a(i as int));
        }
    }
    let mut out: Vec<String> = Vec::new();
    let mut k: usize = 0;
    while k < order.len()
        invariant
            k <= order@.len(),
            all == entries@,
            forall|j: int| 0 <= j < order@.len() ==> (#[trigger] order@[j]) < all.len(),
            out@.len() == k,
            forall|j: int|
                0 <= j < k ==> (#[trigger] out@[j])@ == joined_path(
                    dir@,
                    all[order@[j] as int].name@,
                ),
        decreases order@.len() - k,
    {
        out.push(path::join(dir, entries[order[k]].name.as_str()));
        k += 1;
    }
    assert(listed(dir@, all, views(out@), order@));
    out
}

/// The places from which directories are picked: the drives that there are, or the
/// root where the machine has no drives.
pub open spec fn root_texts(drives: Seq<char>) -> Seq<Seq<char>> {
    if drives.len() == 0 {
        seq!["/"@]
    } else {
        drives.map_values(|d: char| seq![d, ':', '\\'])
    }
}

/// The places from which directories are picked.
pub fn roots(drives: &Vec<char>) -> (r: Vec<String>)
    ensures
        views(r@) == root_texts(drives@),
        r@.len() > 0,
{
    let mut out: Vec<String> = Vec::new();
    if drives.len() == 0 {
        out.push("/".to_owned());
        assert(views(out@) =~= seq!["/"@]);
        return out;
    }
    let mut i: usize = 0;
    while i < drives.len()
        invariant
            i <= drives@.len(),
            drives@.len() > 0,
            views(out@) =~= root_texts(drives@).take(i as int),
        decreases drives@.len() - i,
    {
        let ghost before = out@;
        let mut one = String::new();
        one.push(drives[i]);
        one.push(':');
        one.push('\\');
        assert(one@ =~= seq![drives@[i as int], ':', '\\']);
        out.push(one);
        assert(views(out@) =~= views(before).push(one@));
        i += 1;
    }
    assert(out@.len() == views(out@).len());
    out
}

/// On every level of the tree there are only entries that are shown, directories before
/// files and each kind by name, and files have nothing in them.
pub proof fn every_level_is_in_order(nodes: Seq<FsNode>, depth: int, out: Seq<FsNode>)
    requires
        scanned(nodes, depth, out),
    ensures
        neat(out),
    decreases nodes,
{
    if depth <= MAX_DEPTH {
        let order = choose|order: Seq<usize>| #[trigger]
            display_order(nodes, order) && out.len() == order.len() && forall|k: int|
                0 <= k < out.len() && order[k] < nodes.len() ==> {
                    let from = nodes[order[k] as int];
                    &&& (#[trigger] out[k]).path@ == from.path@
                    &&& out[k].name@ == from.name@
                    &&& out[k].is_dir == from.is_dir
                    &&& if from.is_dir {
                        scanned(from.children@, depth + 1, out[k].children@)
                    } else {
                        out[k].children@.len() == 0
                    }
                };
        assert forall|i: int| 0 <= i < out.len() implies {
            &&& shown((#[trigger] out[i]).name@, out[i].is_dir)
            &&& !out[i].is_dir ==> out[i].children@.len() == 0
            &&& neat(out[i].children@)
        } by {
            assert(order[i] < node_names(nodes).len());
            let from = nodes[order[i] as int];
            if from.is_dir {
                every_level_is_in_order(from.children@, depth + 1, out[i].children@);
            }
        }
        assert forall|i: int, j: int| 0 <= i < j < out.len() implies #[trigger] may_precede(
            out[i],
            out[j],
        ) by {
            assert(entry_before(
                node_dirs(nodes),
                node_names(nodes),
                order[i] as int,
                order[j] as int,
            ));
            assert(order[i] < node_names(nodes).len() && order[j] < node_names(nodes).len());
            assert(out[i].name@ == nodes[order[i] as int].name@);
            assert(out[j].name@ == nodes[order[j] as int].name@);
        }
    }
}

/// A directory that is not worth looking into is never shown.
pub proof fn heavy_directories_are_never_shown(name: Seq<char>)
    requires
        is_heavy(name),
    ensures
        !shown(name, true),
{
}

/// `out` shows the entry `n` of a directory at `depth`.
pub open spec fn is_shown_as(n: FsNode, depth: int, out: FsNode) -> bool {
    &&& out.path@ == n.path@
    &&& out.name@ == n.name@
    &&& out.is_dir == n.is_dir
    &&& n.is_dir ==> scanned(n.children@, depth + 1, out.children@)
}

/// No entry is missing from the tree: on every level that is not too deep, every file that
/// is not hidden and every directory that is neither hidden nor heavy is shown, a directory
/// with what is in it.
pub proof fn every_entry_is_in_the_tree(nodes: Seq<FsNode>, depth: int, out: Seq<FsNode>, i: usize)
    requires
        scanned(nodes, depth, out),
        depth <= MAX_DEPTH,
        i < nodes.len(),
        !is_hidden(nodes[i as int].name@) || nodes[i as int].name@ == ".gitignore"@
            || nodes[i as int].name@ == ".gitattributes"@,
        !(nodes[i as int].is_dir && is_heavy(nodes[i as int].name@)),
    ensures
        exists|k: int| 0 <= k < out.len() && #[trigger] is_shown_as(nodes[i as int], depth, out[k]),
{
    let order = choose|order: Seq<usize>| #[trigger]
        display_order(nodes, order) && out.len() == order.len() && forall|k: int|
            0 <= k < out.len() && order[k] < nodes.len() ==> {
                let from = nodes[order[k] as int];
                &&& (#[trigger] out[k]).path@ == from.path@
                &&& out[k].name@ == from.name@
                &&& out[k].is_dir == from.is_dir
                &&& if from.is_dir {
                    scanned(from.children@, depth + 1, out[k].children@)
                } else {
                    out[k].children@.len() == 0
                }
            };
    let chosen = |i: int| 0 <= i < nodes.len() && shown(nodes[i].name@, nodes[i].is_dir);
    assert(chosen(i as int));
    assert(order.contains(i));
    let k = choose|k: int| 0 <= k < order.len() && order[k] == i;
    assert(out[k].path@ == nodes[i as int].path@);
    assert(is_shown_as(nodes[i as int], depth, out[k]));
}

/// Every directory that is neither hidden nor heavy can be picked, and nothing else can.
pub proof fn every_directory_can_be_picked(
    dir: Seq<char>,
    entries: Seq<Entry>,
    out: Seq<Seq<char>>,
    order: Seq<usize>,
    i: usize,
)
    requires
        listed(dir, entries, out, order),
        i < entries.len(),
        entries[i as int].is_dir,
        !is_hidden(entries[i as int].name@),
        !is_heavy(entries[i as int].name@),
    ensures
        out.contains(joined_path(dir, entries[i as int].name@)),
        forall|k: int|
            0 <= k < out.len() ==> exists|j: int|
                0 <= j < entries.len() && (#[trigger] entries[j]).is_dir && #[trigger] out[k]
                    == joined_path(dir, entries[j].name@),
{
    let chosen = |i: int| 0 <= i < entries.len() && pickable(entries[i]);
    assert(chosen(i as int));
    assert(order.contains(i));
    let k = choose|k: int| 0 <= k < order.len() && order[k] == i;
    assert(out[k] == joined_path(dir, entries[i as int].name@));
    assert forall|k: int| 0 <= k < out.len() implies exists|j: int|
        0 <= j < entries.len() && (#[trigger] entries[j]).is_dir && #[trigger] out[k]
            == joined_path(dir, entries[j].name@) by {
        assert(chosen(order[k] as int));
        assert(entries[order[k] as int].is_dir);
    }
}

/// The number of entries counts each once, with all that is in it.
pub proof fn entries_are_counted_with_what_is_in_them(a: Seq<FsNode>, n: FsNode)
    ensures
        total(a.push(n)) == total(a) + 1 + total(n.children@),
        total(Seq::<FsNode>::empty()) == 0,
{
    assert(a.push(n).drop_last() =~= a);
}

/// These directories, and no others, are heavy; and what begins with a dot, and nothing
/// else, is hidden.
pub proof fn heavy_and_hidden_names(name: Seq<char>)
    ensures
        is_heavy(name) <==> name == ".git"@ || name == ".cargo"@ || name == "target"@ || name
            == "node_modules"@ || name == "dist"@ || name == "build"@ || name == ".next"@ || name
            == ".venv"@ || name == "venv"@ || name == "__pycache__"@ || name == ".idea"@ || name
            == ".vs"@,
        is_hidden(name) <==> name.len() > 0 && name[0] == '.',
{
}

} // verus!
