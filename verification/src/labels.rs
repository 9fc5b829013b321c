//! Short forms of paths and other words that the screen shows.

use vstd::prelude::*;
use vstd::string::*;

use crate::path;
use crate::path::{forward, name_of};
use crate::text;
use crate::text::{pieces, views};

verus! {

/// The texts that are not empty.
pub open spec fn filled(parts: Seq<Seq<char>>) -> Seq<Seq<char>>
    decreases parts.len(),
{
    if parts.len() == 0 {
        Seq::empty()
    } else if parts.last().len() == 0 {
        filled(parts.drop_last())
    } else {
        filled(parts.drop_last()).push(parts.last())
    }
}

/// The last two names of a path, whichever of `/` and `\` is between them.
pub open spec fn shortened(p: Seq<char>) -> Seq<char> {
    let names = filled(pieces(forward(p), '/'));
    if names.len() == 0 {
        p
    } else if names.len() == 1 {
        names[0]
    } else {
        names[names.len() - 2] + "/"@ + names[names.len() - 1]
    }
}

/// The last two names of a path.
pub fn short_path(p: &str) -> (r: String)
    ensures
        r@ == shortened(p@),
{
    let plain = path::slashed(p);
    let parts = text::split(plain.as_str(), '/');
    let ghost all = views(parts@);
    let mut names: Vec<String> = Vec::new();
    assert(views(names@) =~= Seq::<Seq<char>>::empty());
    let mut k: usize = 0;
    while k < parts.len()
        invariant
            k <= parts@.len(),
            all == views(parts@),
            views(names@) == filled(all.take(k as int)),
        decreases parts@.len() - k,
    {
        assert(all.take(k + 1).drop_last() =~= all.take(k as int));
        assert(all.take(k + 1).last() == parts@[k as int]@);
        if !parts[k].as_str().is_empty() {
            let ghost before = names@;
            let name = parts[k].clone();
            names.push(name);
            assert(views(names@) =~= views(before).push(name@));
        }
        k += 1;
    }
    assert(all.take(k as int) =~= all);
    let n: usize = names.len();
    assert(n == views(names@).len());
    if n == 0 {
        p.to_owned()
    } else if n == 1 {
        names[0].clone()
    } else {
        text::three(names[n - 2].as_str(), "/", names[n - 1].as_str())
    }
}

/// What a file is called on the screen: its name, or else the end of its path.
pub open spec fn label_of(p: Seq<char>) -> Seq<char> {
    match name_of(p) {
        Some(name) => name,
        None => shortened(p),
    }
}

/// What a file is called on the screen.
pub fn short_label(p: &str) -> (r: String)
    ensures
        r@ == label_of(p@),
{
    match path::file_name(p) {
        Some(name) => name,
        None => short_path(p),
    }
}

/// What a colour is called.
pub open spec fn color_text(name: Seq<char>) -> Seq<char> {
    if name == "red"@ {
        "红"@
    } else if name == "orange"@ {
        "橙"@
    } else if name == "yellow"@ {
        "黄"@
    } else if name == "green"@ {
        "绿"@
    } else if name == "aqua"@ {
        "青"@
    } else if name == "blue"@ {
        "蓝"@
    } else if name == "purple"@ {
        "紫"@
    } else if name == "gray"@ {
        "灰"@
    } else if name == "black"@ {
        "黑"@
    } else {
        "颜色"@
    }
}

/// What a colour is called.
pub fn color_label(name: &str) -> (r: &'static str)
    ensures
        r@ == color_text(name@),
{
    if text::same(name, "red") {
        "红"
    } else if text::same(name, "orange") {
        "橙"
    } else if text::same(name, "yellow") {
        "黄"
    } else if text::same(name, "green") {
        "绿"
    } else if text::same(name, "aqua") {
        "青"
    } else if text::same(name, "blue") {
        "蓝"
    } else if text::same(name, "purple") {
        "紫"
    } else if text::same(name, "gray") {
        "灰"
    } else if text::same(name, "black") {
        "黑"
    } else {
        "颜色"
    }
}

/// What is said after a theme was asked for; `known` says whether there is such a theme.
pub fn theme_message(name: &str, known: bool) -> (r: String)
    ensures
        r@ == if known {
            "主题 → "@ + name@
        } else {
            "不认识的主题："@ + name@
        },
{
    if known {
        text::both("主题 → ", name)
    } else {
        text::both("不认识的主题：", name)
    }
}

/// What is said while a directory is read.
pub fn scanning_message(root: &str) -> (r: String)
    ensures
        r@ == "正在扫描 "@ + shortened(root@) + "…"@,
{
    let short = short_path(root);
    text::three("正在扫描 ", short.as_str(), "…")
}

proof fn lemma_filled_adds(a: Seq<Seq<char>>, b: Seq<Seq<char>>)
    ensures
        filled(a + b) == filled(a) + filled(b),
    decreases b.len(),
{
    if b.len() == 0 {
        assert(a + b =~= a);
        assert(filled(a) + filled(b) =~= filled(a));
    } else {
        lemma_filled_adds(a, b.drop_last());
        assert((a + b).drop_last() =~= a + b.drop_last());
        assert(filled(a + b) =~= filled(a) + filled(b));
    }
}

proof fn lemma_one_name(name: Seq<char>)
    requires
        name.len() > 0,
        forall|i: int| 0 <= i < name.len() ==> #[trigger] name[i] != '/' && name[i] != '\\',
    ensures
        pieces(name, '/') == seq![name],
        filled(seq![name]) == seq![name],
{
    let none = Seq::<char>::empty();
    text::lemma_pieces_append(none, name, '/');
    assert(none + name =~= name);
    assert(pieces(name, '/') =~= seq![name]);
    reveal_with_fuel(filled, 2);
    assert(seq![name].drop_last() =~= Seq::empty());
    assert(filled(seq![name]) =~= seq![name]);
}

/// A long path is shown by its last two names, whatever stands before them.
pub proof fn paths_are_shown_by_their_last_two_names(head: Seq<char>, a: Seq<char>, b: Seq<char>)
    requires
        a.len() > 0,
        b.len() > 0,
        forall|i: int| 0 <= i < a.len() ==> #[trigger] a[i] != '/' && a[i] != '\\',
        forall|i: int| 0 <= i < b.len() ==> #[trigger] b[i] != '/' && b[i] != '\\',
    ensures
        shortened(head + seq!['/'] + (a + seq!['/'] + b)) == a + "/"@ + b,
        shortened(head + seq!['\\'] + (a + seq!['\\'] + b)) == a + "/"@ + b,
{
    let h = forward(head);
    let rest = a + seq!['/'] + b;
    let p = head + seq!['/'] + rest;
    let q = head + seq!['\\'] + (a + seq!['\\'] + b);
    assert(forward(p) =~= h + seq!['/'] + rest);
    assert(forward(q) =~= h + seq!['/'] + rest);
    text::lemma_pieces_around(h, '/', rest);
    text::lemma_pieces_around(a, '/', b);
    lemma_one_name(a);
    lemma_one_name(b);
    lemma_filled_adds(pieces(h, '/'), pieces(rest, '/'));
    lemma_filled_adds(seq![a], seq![b]);
    let names = filled(pieces(forward(p), '/'));
    assert(names =~= filled(pieces(h, '/')) + (seq![a] + seq![b]));
    assert(names[names.len() - 2] == a && names[names.len() - 1] == b);
}

} // verus!
