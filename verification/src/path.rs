//! Paths as text, as Windows reads them: `/` and `\` both stand between components, and a
//! drive or a share (`\\server\share`) may come first. What begins with `\\?\` is read in the
//! same way, as a share of the server `?`.

use vstd::prelude::*;
use vstd::string::*;

use crate::chars;
use crate::chars::ascii_lower;
use crate::order;
use crate::order::text_before;
use crate::text;
use crate::text::{optional, pieces, same_texts, split, views};

verus! {

pub open spec fn is_slash(c: char) -> bool {
    c == '/' || c == '\\'
}

/// A text with `/` for each `\`.
pub open spec fn forward(s: Seq<char>) -> Seq<char> {
    s.map_values(
        |c: char|
            if c == '\\' {
                '/'
            } else {
                c
            },
    )
}

/// A text with `/` for each `\`.
pub fn slashed(s: &str) -> (r: String)
    ensures
        r@ == forward(s@),
{
    let v = text::chars_of(s);
    let mut plain = String::new();
    let mut i: usize = 0;
    while i < v.len()
        invariant
            i <= v@.len(),
            plain@ == forward(v@.take(i as int)),
        decreases v@.len() - i,
    {
        let ghost before = plain@;
        if v[i] == '\\' {
            plain.push('/');
        } else {
            plain.push(v[i]);
        }
        assert(forward(v@.take(i + 1)) =~= before.push(forward(v@)[i as int]));
        i += 1;
    }
    assert(v@.take(i as int) =~= v@);
    plain
}

/// The path begins with a drive: a letter and a colon.
pub open spec fn has_drive(p: Seq<char>) -> bool {
    p.len() >= 2 && 'a' <= ascii_lower(p[0]) <= 'z' && p[1] == ':'
}

/// The drive that a path begins with, as a small letter.
pub open spec fn drive_of(p: Seq<char>) -> Option<char> {
    if has_drive(p) {
        Some(ascii_lower(p[0]))
    } else {
        None
    }
}

/// What follows the drive.
pub open spec fn after_drive(p: Seq<char>) -> Seq<char> {
    if has_drive(p) {
        p.skip(2)
    } else {
        p
    }
}

/// The server and the share that a path begins with: the two names behind two slashes.
pub open spec fn share_of(p: Seq<char>) -> Option<(Seq<char>, Seq<char>)> {
    let all = pieces(forward(p), '/');
    if !has_drive(p) && all.len() >= 4 && all[0].len() == 0 && all[1].len() == 0 && all[2].len() > 0
        && all[3].len() > 0 {
        Some((all[2], all[3]))
    } else {
        None
    }
}

/// How many of the pieces of a path its share takes.
pub open spec fn share_size(p: Seq<char>) -> int {
    if share_of(p) is Some {
        4
    } else {
        0
    }
}

/// The path begins at the root, of its drive or its share where it has one.
pub open spec fn is_rooted(p: Seq<char>) -> bool {
    after_drive(p).len() > 0 && is_slash(after_drive(p)[0])
}

/// A piece that names something: neither empty nor `.`.
pub open spec fn names(piece: Seq<char>) -> bool {
    piece.len() > 0 && piece != seq!['.']
}

/// The components of a path after its drive or its share: the pieces between slashes,
/// where empty pieces and `.` count for nothing, but for a `.` that the path begins with.
pub open spec fn components(p: Seq<char>) -> Seq<Seq<char>> {
    let all = pieces(forward(after_drive(p)), '/');
    let named = all.skip(share_size(p)).filter(|x: Seq<char>| names(x));
    if all[0] == seq!['.'] {
        seq![seq!['.']] + named
    } else {
        named
    }
}

/// Two texts that mean the same path.
pub open spec fn same_path(a: Seq<char>, b: Seq<char>) -> bool {
    &&& drive_of(a) == drive_of(b)
    &&& share_of(a) == share_of(b)
    &&& is_rooted(a) == is_rooted(b)
    &&& components(a) == components(b)
}

fn is_dot(s: &String) -> (r: bool)
    ensures
        r == (s@ == seq!['.']),
{
    let v = text::chars_of(s.as_str());
    if v.len() == 1 && v[0] == '.' {
        assert(s@ =~= seq!['.']);
        true
    } else {
        false
    }
}

/// The drive that a path begins with, and what follows it.
fn split_drive(p: &str) -> (r: (Option<char>, String))
    ensures
        r.0 == drive_of(p@),
        r.1@ == after_drive(p@),
{
    let v = text::chars_of(p);
    let n: usize = v.len();
    if n >= 2 && v[1] == ':' {
        let letter = chars::fold_ascii(v[0]);
        if 'a' <= letter && letter <= 'z' {
            let rest = text::text_of(&v, 2, n);
            assert(rest@ =~= p@.skip(2));
            return (Some(letter), rest);
        }
    }
    (None, p.to_owned())
}

/// The server and the share that a path begins with.
fn share(p: &str) -> (r: Option<(String, String)>)
    ensures
        share_of(p@) == match r {
            Some(names) => Some((names.0@, names.1@)),
            None => None,
        },
{
    let (drive, _) = split_drive(p);
    let body = slashed(p);
    let all = split(body.as_str(), '/');
    assert(views(all@).len() == all@.len());
    if drive.is_none() && all.len() >= 4 {
        assert(views(all@)[0] == all@[0]@);
        assert(views(all@)[1] == all@[1]@);
        assert(views(all@)[2] == all@[2]@);
        assert(views(all@)[3] == all@[3]@);
        if all[0].as_str().is_empty() && all[1].as_str().is_empty() && !all[2].as_str().is_empty()
            && !all[3].as_str().is_empty() {
            return Some((all[2].clone(), all[3].clone()));
        }
    }
    None
}

/// The components of a path.
pub fn parts(p: &str) -> (r: Vec<String>)
    ensures
        views(r@) == components(p@),
{
    let (_, rest) = split_drive(p);
    let body = slashed(rest.as_str());
    let all = split(body.as_str(), '/');
    let mut out: Vec<String> = Vec::new();
    proof {
        text::lemma_pieces_nonempty(body@, '/');
        assert(all@.len() == views(all@).len());
    }
    let ghost pred = |x: Seq<char>| names(x);
    let ghost mut lead: Seq<Seq<char>> = Seq::empty();
    if is_dot(&all[0]) {
        out.push(all[0].clone());
        proof {
            lead = seq![seq!['.']];
            assert(views(out@) =~= lead);
        }
    } else {
        assert(views(out@) =~= lead);
    }
    let first: usize = if share(p).is_some() {
        4
    } else {
        0
    };
    proof {
        assert(views(all@).subrange(first as int, first as int).filter(pred) =~= Seq::empty()) by {
            reveal(Seq::filter);
        }
        assert(views(out@) =~= lead + views(all@).subrange(first as int, first as int).filter(pred));
        assert(views(all@)[0] == all@[0]@);
    }
    let mut i: usize = first;
    while i < all.len()
        invariant
            first <= i <= all@.len(),
            pred == (|x: Seq<char>| names(x)),
            views(out@) == lead + views(all@).subrange(first as int, i as int).filter(pred),
        decreases all@.len() - i,
    {
        let ghost seen = views(all@).subrange(first as int, i as int);
        let ghost prev = out@;
        let named = all[i].as_str().unicode_len() > 0 && !is_dot(&all[i]);
        if named {
            out.push(all[i].clone());
        }
        proof {
            reveal(Seq::filter);
            assert(views(all@).subrange(first as int, i + 1).drop_last() =~= seen);
            assert(views(all@).subrange(first as int, i + 1).last() == all@[i as int]@);
            assert(pred(all@[i as int]@) == named);
            if named {
                assert(views(out@) =~= views(prev).push(all@[i as int]@));
            }
            assert(views(out@) =~= lead + views(all@).subrange(first as int, i + 1).filter(pred));
        }
        i += 1;
    }
    assert(views(all@).subrange(first as int, i as int) =~= views(all@).skip(share_size(p@)));
    proof {
        if views(all@)[0] == seq!['.'] {
            assert(views(out@) =~= seq![seq!['.']] + views(all@).skip(share_size(p@)).filter(pred));
        } else {
            assert(views(out@) =~= views(all@).skip(share_size(p@)).filter(pred));
        }
    }
    out
}

/// Whether the path begins at the root.
pub fn rooted(p: &str) -> (r: bool)
    ensures
        r == is_rooted(p@),
{
    let (_, rest) = split_drive(p);
    let v = text::chars_of(rest.as_str());
    v.len() > 0 && (v[0] == '/' || v[0] == '\\')
}

/// Whether two texts mean the same path.
pub fn is_same(a: &str, b: &str) -> (r: bool)
    ensures
        r == same_path(a@, b@),
{
    let x = parts(a);
    let y = parts(b);
    let (d, _) = split_drive(a);
    let (e, _) = split_drive(b);
    let same_drive = match (d, e) {
        (Some(d), Some(e)) => d == e,
        (None, None) => true,
        _ => false,
    };
    let same_share = match (share(a), share(b)) {
        (Some(s), Some(t)) => text::same(s.0.as_str(), t.0.as_str()) && text::same(
            s.1.as_str(),
            t.1.as_str(),
        ),
        (None, None) => true,
        _ => false,
    };
    same_drive && same_share && rooted(a) == rooted(b) && same_texts(&x, &y)
}

/// The name of the file that a path leads to: its last component, unless that is
/// `.` or `..`.
pub open spec fn name_of(p: Seq<char>) -> Option<Seq<char>> {
    let c = components(p);
    if c.len() == 0 || c.last() == seq!['.'] || c.last() == seq!['.', '.'] {
        None
    } else {
        Some(c.last())
    }
}

fn is_two_dots(s: &String) -> (r: bool)
    ensures
        r == (s@ == seq!['.', '.']),
{
    let v = text::chars_of(s.as_str());
    if v.len() == 2 && v[0] == '.' && v[1] == '.' {
        assert(s@ =~= seq!['.', '.']);
        true
    } else {
        false
    }
}

/// The name of the file that a path leads to.
pub fn file_name(p: &str) -> (r: Option<String>)
    ensures
        optional(r) == name_of(p@),
{
    let c = parts(p);
    let n: usize = c.len();
    assert(components(p@).len() == n);
    if n == 0 {
        return None;
    }
    assert(components(p@).last() == c@[n - 1]@);
    if is_dot(&c[n - 1]) || is_two_dots(&c[n - 1]) {
        None
    } else {
        Some(c[n - 1].clone())
    }
}

/// The last place of `c` in `s`, or -1.
pub open spec fn last_place(s: Seq<char>, c: char) -> int
    decreases s.len(),
{
    if s.len() == 0 {
        -1
    } else if s.last() == c {
        s.len() - 1
    } else {
        last_place(s.drop_last(), c)
    }
}

/// The extension of a file name: what follows its last dot, unless that is its
/// first character.
pub open spec fn extension_of(p: Seq<char>) -> Option<Seq<char>> {
    match name_of(p) {
        Some(name) => if last_place(name, '.') > 0 {
            Some(name.skip(last_place(name, '.') + 1))
        } else {
            None
        },
        None => None,
    }
}

/// The extension of the file that a path leads to.
pub fn extension(p: &str) -> (r: Option<String>)
    ensures
        optional(r) == extension_of(p@),
{
    let name = match file_name(p) {
        Some(name) => name,
        None => {
            return None;
        },
    };
    let v = text::chars_of(name.as_str());
    let n: usize = v.len();
    let mut i: usize = n;
    assert(v@.take(n as int) =~= v@);
    while i > 0 && v[i - 1] != '.'
        invariant
            i <= n,
            n == v@.len(),
            last_place(v@, '.') == last_place(v@.take(i as int), '.'),
        decreases i,
    {
        assert(v@.take(i as int).drop_last() =~= v@.take(i - 1));
        i -= 1;
    }
    if i > 1 {
        assert(v@.subrange(i as int, n as int) =~= v@.skip(i as int));
        Some(text::text_of(&v, i, n))
    } else {
        None
    }
}

/// `name` in the directory `dir`. A bare drive is followed by the name at once.
pub open spec fn joined_path(dir: Seq<char>, name: Seq<char>) -> Seq<char> {
    if dir.len() == 0 || is_slash(dir.last()) || (has_drive(dir) && dir.len() == 2) {
        dir + name
    } else {
        dir + seq!['/'] + name
    }
}

/// `name` in the directory `dir`.
pub fn join(dir: &str, name: &str) -> (r: String)
    ensures
        r@ == joined_path(dir@, name@),
{
    let mut out = dir.to_owned();
    let (drive, rest) = split_drive(dir);
    let bare = drive.is_some() && rest.as_str().is_empty();
    if !dir.is_empty() && !text::ends_with(dir, '/') && !text::ends_with(dir, '\\') && !bare {
        out.push('/');
        assert(out@ =~= dir@ + seq!['/']);
    }
    out.append(name);
    out
}

/// What a component counts as when paths are compared: `.` before `..` before names.
pub open spec fn part_class(c: Seq<char>) -> int {
    if c == seq!['.'] {
        3
    } else if c == seq!['.', '.'] {
        4
    } else {
        5
    }
}

/// The share or the drive of a path when it is compared; shares come before drives.
pub open spec fn prefix_key(p: Seq<char>) -> Seq<(int, Seq<char>)> {
    match (share_of(p), drive_of(p)) {
        (Some(s), _) => seq![(0int, s.0), (0int, s.1)],
        (None, Some(d)) => seq![(1int, seq![d])],
        (None, None) => Seq::empty(),
    }
}

/// What comes before the components of a path when it is compared: its share or its
/// drive, then the root.
pub open spec fn start_key(p: Seq<char>) -> Seq<(int, Seq<char>)> {
    if is_rooted(p) {
        prefix_key(p).push((2int, Seq::<char>::empty()))
    } else {
        prefix_key(p)
    }
}

/// What a path is compared by: its share or its drive, the root, and its components.
pub open spec fn path_key(p: Seq<char>) -> Seq<(int, Seq<char>)> {
    start_key(p) + components(p).map_values(|c: Seq<char>| (part_class(c), c))
}

/// Where paths are compared by the same, they begin in the same way.
proof fn lemma_same_start(a: Seq<char>, b: Seq<char>)
    requires
        path_key(a) == path_key(b),
    ensures
        start_key(a) == start_key(b),
{
    let (x, y) = (components(a), components(b));
    let (s, t) = (start_key(a), start_key(b));
    if s.len() < t.len() {
        assert(path_key(b)[s.len() as int] == t[s.len() as int]);
        assert(path_key(a)[s.len() as int] == (part_class(x[0]), x[0]));
    }
    if t.len() < s.len() {
        assert(path_key(a)[t.len() as int] == s[t.len() as int]);
        assert(path_key(b)[t.len() as int] == (part_class(y[0]), y[0]));
    }
    assert(s.len() == t.len());
    assert forall|i: int| 0 <= i < s.len() implies s[i] == t[i] by {
        assert(path_key(a)[i] == s[i]);
        assert(path_key(b)[i] == t[i]);
    }
    assert(s =~= t);
}

/// Paths that begin in the same way have the same share, drive and root.
proof fn lemma_start_means(a: Seq<char>, b: Seq<char>)
    requires
        start_key(a) == start_key(b),
    ensures
        share_of(a) == share_of(b),
        drive_of(a) == drive_of(b),
        is_rooted(a) == is_rooted(b),
{
    let (s, t) = (start_key(a), start_key(b));
    assert(s.len() == 0 || s.last().0 == t.last().0);
    assert(s.len() == 0 || (is_rooted(a) <==> s.last().0 == 2));
    assert(t.len() == 0 || (is_rooted(b) <==> t.last().0 == 2));
    assert(s.len() == 0 || s[0] == t[0]);
    match (share_of(a), drive_of(a)) {
        (Some(x), _) => {
            assert(s[0] == (0int, x.0) && s[1] == (0int, x.1));
            assert(t[1] == s[1]);
        },
        (None, Some(d)) => {
            assert(s[0] == (1int, seq![d]));
            assert(s[0].1[0] == d);
        },
        (None, None) => {},
    }
    match (share_of(b), drive_of(b)) {
        (Some(y), _) => {
            assert(t[0] == (0int, y.0) && t[1] == (0int, y.1));
        },
        (None, Some(d)) => {
            assert(t[0] == (1int, seq![d]));
            assert(t[0].1[0] == d);
        },
        (None, None) => {},
    }
}

/// Paths that are compared by the same are the same.
pub proof fn lemma_same_key(a: Seq<char>, b: Seq<char>)
    requires
        path_key(a) == path_key(b),
    ensures
        same_path(a, b),
{
    let (x, y) = (components(a), components(b));
    let (s, t) = (start_key(a), start_key(b));
    lemma_same_start(a, b);
    lemma_start_means(a, b);
    assert(x.len() == y.len()) by {
        assert(path_key(a).len() == s.len() + x.len());
        assert(path_key(b).len() == t.len() + y.len());
    }
    assert forall|i: int| 0 <= i < x.len() implies x[i] == y[i] by {
        assert(path_key(a)[s.len() + i].1 == x[i]);
        assert(path_key(b)[t.len() + i].1 == y[i]);
    }
    assert(x =~= y);
}

pub open spec fn part_before(a: (int, Seq<char>), b: (int, Seq<char>)) -> bool {
    a.0 < b.0 || (a.0 == b.0 && text_before(a.1, b.1))
}

/// `a` comes before `b`, component by component.
pub open spec fn key_before(a: Seq<(int, Seq<char>)>, b: Seq<(int, Seq<char>)>) -> bool
    decreases a.len(),
{
    if b.len() == 0 {
        false
    } else if a.len() == 0 {
        true
    } else if a[0] != b[0] {
        part_before(a[0], b[0])
    } else {
        key_before(a.drop_first(), b.drop_first())
    }
}

/// Of two keys one comes before the other, unless they are the same.
pub proof fn lemma_key_total(a: Seq<(int, Seq<char>)>, b: Seq<(int, Seq<char>)>)
    ensures
        key_before(a, b) || key_before(b, a) || a == b,
        !(key_before(a, b) && key_before(b, a)),
        a == b ==> !key_before(a, b),
    decreases a.len(),
{
    if a.len() > 0 && b.len() > 0 {
        lemma_key_total(a.drop_first(), b.drop_first());
        order::lemma_text_total(a[0].1, b[0].1);
        if a[0] == b[0] && a.drop_first() == b.drop_first() {
            assert(a =~= seq![a[0]] + a.drop_first());
            assert(b =~= seq![b[0]] + b.drop_first());
        }
    } else if a.len() == 0 && b.len() == 0 {
        assert(a =~= b);
    }
}

pub proof fn lemma_key_transitive(
    a: Seq<(int, Seq<char>)>,
    b: Seq<(int, Seq<char>)>,
    c: Seq<(int, Seq<char>)>,
)
    requires
        key_before(a, b),
        key_before(b, c),
    ensures
        key_before(a, c),
    decreases a.len(),
{
    if a.len() > 0 {
        if a[0] == b[0] && b[0] == c[0] {
            lemma_key_transitive(a.drop_first(), b.drop_first(), c.drop_first());
        } else {
            order::lemma_text_total(a[0].1, c[0].1);
            order::lemma_text_total(a[0].1, b[0].1);
            order::lemma_text_total(b[0].1, c[0].1);
            if text_before(a[0].1, b[0].1) && text_before(b[0].1, c[0].1) {
                order::lemma_text_transitive(a[0].1, b[0].1, c[0].1);
            }
        }
    }
}

/// A key with machine integers and vectors.
pub type Key = Vec<(u8, Vec<char>)>;

pub open spec fn key_view(k: Seq<(u8, Vec<char>)>) -> Seq<(int, Seq<char>)> {
    k.map_values(|p: (u8, Vec<char>)| (p.0 as int, p.1@))
}

/// What a path is compared by.
pub fn key_of(p: &str) -> (r: Key)
    ensures
        key_view(r@) == path_key(p@),
{
    let mut out: Key = Vec::new();
    let c = parts(p);
    let (drive, _) = split_drive(p);
    assert(key_view(out@) =~= Seq::empty());
    if let Some(names) = share(p) {
        let server = text::chars_of(names.0.as_str());
        let name = text::chars_of(names.1.as_str());
        out.push((0, server));
        out.push((0, name));
        assert(key_view(out@) =~= seq![(0int, names.0@), (0int, names.1@)]);
    } else if let Some(d) = drive {
        let letter: Vec<char> = vec![d];
        out.push((1, letter));
        assert(letter@ =~= seq![d]);
        assert(key_view(out@) =~= seq![(1int, seq![d])]);
    }
    assert(key_view(out@) == prefix_key(p@));
    if rooted(p) {
        let ghost before = key_view(out@);
        let empty: Vec<char> = Vec::new();
        out.push((2, empty));
        assert(empty@ =~= Seq::<char>::empty());
        assert(key_view(out@) =~= before.push((2int, Seq::<char>::empty())));
    }
    let ghost lead = key_view(out@);
    assert(lead == start_key(p@));
    let ghost named = components(p@).map_values(|c: Seq<char>| (part_class(c), c));
    let mut i: usize = 0;
    assert(key_view(out@) =~= lead + named.take(0));
    while i < c.len()
        invariant
            i <= c@.len(),
            views(c@) == components(p@),
            named == components(p@).map_values(|c: Seq<char>| (part_class(c), c)),
            key_view(out@) == lead + named.take(i as int),
        decreases c@.len() - i,
    {
        let ghost before = out@;
        let class: u8 = if is_dot(&c[i]) {
            3
        } else if is_two_dots(&c[i]) {
            4
        } else {
            5
        };
        let v = text::chars_of(c[i].as_str());
        out.push((class, v));
        assert(views(c@)[i as int] == c@[i as int]@);
        assert(key_view(out@) =~= key_view(before).push(named[i as int]));
        assert(key_view(out@) =~= lead + named.take(i + 1));
        i += 1;
    }
    assert(named.take(i as int) =~= named);
    assert(key_view(out@) =~= path_key(p@));
    out
}

/// Whether the keys are the same.
pub fn same_key(a: &Key, b: &Key) -> (r: bool)
    ensures
        r == (key_view(a@) == key_view(b@)),
{
    if a.len() != b.len() {
        assert(key_view(a@).len() != key_view(b@).len());
        return false;
    }
    let mut i: usize = 0;
    while i < a.len()
        invariant
            i <= a@.len(),
            a@.len() == b@.len(),
            forall|j: int| 0 <= j < i ==> key_view(a@)[j] == key_view(b@)[j],
        decreases a@.len() - i,
    {
        if a[i].0 != b[i].0 || !text::same_chars(&a[i].1, &b[i].1) {
            assert(key_view(a@)[i as int] != key_view(b@)[i as int]);
            return false;
        }
        i += 1;
    }
    assert(key_view(a@) =~= key_view(b@));
    true
}

/// Whether `a` comes before `b`, component by component.
pub fn is_key_before(a: &Key, b: &Key) -> (r: bool)
    ensures
        r == key_before(key_view(a@), key_view(b@)),
{
    let ghost x = key_view(a@);
    let ghost y = key_view(b@);
    let mut i: usize = 0;
    assert(x.skip(0) =~= x);
    assert(y.skip(0) =~= y);
    while i < a.len() && i < b.len()
        invariant
            i <= a@.len(),
            i <= b@.len(),
            x == key_view(a@),
            y == key_view(b@),
            key_before(x, y) == key_before(x.skip(i as int), y.skip(i as int)),
        decreases a@.len() - i,
    {
        assert(x.skip(i as int)[0] == x[i as int]);
        assert(y.skip(i as int)[0] == y[i as int]);
        if a[i].0 != b[i].0 {
            return a[i].0 < b[i].0;
        }
        if !text::same_chars(&a[i].1, &b[i].1) {
            return order::is_text_before(&a[i].1, &b[i].1);
        }
        assert(x.skip(i as int).drop_first() =~= x.skip(i + 1));
        assert(y.skip(i as int).drop_first() =~= y.skip(i + 1));
        i += 1;
    }
    i < b.len()
}

/// Both kinds of slashes mean the same.
pub proof fn slashes_of_both_kinds_mean_the_same(p: Seq<char>)
    ensures
        same_path(p, forward(p)),
{
    let q = forward(p);
    assert(forward(q) =~= q);
    assert(after_drive(q) =~= forward(after_drive(p)));
    assert(forward(after_drive(q)) =~= forward(after_drive(p)));
    if p.len() > 0 {
        assert(q[0] == '/' <==> is_slash(p[0]));
    }
    assert(drive_of(p) == drive_of(q));
    if after_drive(p).len() > 0 {
        assert(after_drive(q)[0] == forward(after_drive(p))[0]);
    }
}

proof fn lemma_filter_push(a: Seq<Seq<char>>, x: Seq<char>)
    requires
        names(x),
    ensures
        a.push(x).filter(|x: Seq<char>| names(x)) == a.filter(|x: Seq<char>| names(x)).push(x),
{
    reveal(Seq::filter);
    assert(a.push(x).drop_last() =~= a);
}

/// A name in a directory is the name of what it leads to, and the directory is the way to
/// it: nothing else is added and nothing is lost.
pub proof fn names_are_found_where_they_are_put(dir: Seq<char>, name: Seq<char>)
    requires
        dir.len() > 0,
        !is_slash(dir.last()),
        !(has_drive(dir) && dir.len() == 2),
        name.len() > 0,
        name != seq!['.'],
        name != seq!['.', '.'],
        forall|i: int| 0 <= i < name.len() ==> !is_slash(#[trigger] name[i]),
        share_of(joined_path(dir, name)) == share_of(dir),
    ensures
        components(joined_path(dir, name)) == components(dir).push(name),
        name_of(joined_path(dir, name)) == Some(name),
        drive_of(joined_path(dir, name)) == drive_of(dir),
        is_rooted(joined_path(dir, name)) == is_rooted(dir),
{
    let p = joined_path(dir, name);
    let d = forward(after_drive(dir));
    assert(p =~= dir + seq!['/'] + name);
    if dir.len() == 1 {
        assert(p[1] == '/');
    }
    assert(has_drive(p) == has_drive(dir));
    assert(forward(name) =~= name) by {
        assert forall|i: int| 0 <= i < name.len() implies forward(name)[i] == name[i] by {
            assert(!is_slash(name[i]));
        }
    }
    assert(after_drive(p) =~= after_drive(dir) + seq!['/'] + name);
    assert(forward(after_drive(p)) =~= d + seq!['/'] + name);
    text::lemma_pieces_around(d, '/', name);
    text::lemma_pieces_nonempty(d, '/');
    let none = Seq::<char>::empty();
    assert forall|i: int| 0 <= i < name.len() implies name[i] != '/' by {
        assert(!is_slash(name[i]));
    }
    text::lemma_pieces_append(none, name, '/');
    assert(none + name =~= name);
    assert(pieces(name, '/') =~= seq![name]);
    let all = pieces(d, '/');
    let more = pieces(forward(after_drive(p)), '/');
    assert(more =~= all.push(name));
    let s = share_size(dir);
    assert(share_size(p) == s);
    if share_of(dir) is Some {
        assert(after_drive(dir) == dir);
        assert(all.len() >= 4);
    }
    assert(more.skip(s) =~= all.skip(s).push(name));
    lemma_filter_push(all.skip(s), name);
    assert(more[0] == all[0]);
    assert(components(p) =~= components(dir).push(name));
}

proof fn lemma_last_place(stem: Seq<char>, c: char, end: Seq<char>)
    requires
        forall|i: int| 0 <= i < end.len() ==> #[trigger] end[i] != c,
    ensures
        last_place(stem + seq![c] + end, c) == stem.len(),
    decreases end.len(),
{
    let s = stem + seq![c] + end;
    if end.len() > 0 {
        assert(s.drop_last() =~= stem + seq![c] + end.drop_last());
        assert(s.last() == end[end.len() - 1]);
        lemma_last_place(stem, c, end.drop_last());
    }
}

/// The extension is what follows the last dot of the name.
pub proof fn extensions_follow_the_last_dot(p: Seq<char>, stem: Seq<char>, end: Seq<char>)
    requires
        name_of(p) == Some(stem + seq!['.'] + end),
        forall|i: int| 0 <= i < end.len() ==> #[trigger] end[i] != '.',
    ensures
        stem.len() > 0 ==> extension_of(p) == Some(end),
        stem.len() == 0 ==> extension_of(p) is None,
{
    let name = stem + seq!['.'] + end;
    lemma_last_place(stem, '.', end);
    assert(name.skip(stem.len() as int + 1) =~= end);
}

/// The letter of a drive means the same, large or small.
pub proof fn drives_are_the_same_large_or_small(a: char, b: char, rest: Seq<char>)
    requires
        ascii_lower(a) == ascii_lower(b),
        'a' <= ascii_lower(a) <= 'z',
    ensures
        same_path(seq![a, ':'] + rest, seq![b, ':'] + rest),
{
    let p = seq![a, ':'] + rest;
    let q = seq![b, ':'] + rest;
    assert(after_drive(p) =~= rest);
    assert(after_drive(q) =~= rest);
}

proof fn lemma_filter_joins(a: Seq<Seq<char>>, b: Seq<Seq<char>>)
    ensures
        (a + b).filter(|x: Seq<char>| names(x)) == a.filter(|x: Seq<char>| names(x)) + b.filter(
            |x: Seq<char>| names(x),
        ),
    decreases b.len(),
{
    reveal(Seq::filter);
    let f = |x: Seq<char>| names(x);
    if b.len() == 0 {
        assert(a + b =~= a);
        assert(a.filter(f) + b.filter(f) =~= a.filter(f));
    } else {
        lemma_filter_joins(a, b.drop_last());
        assert((a + b).drop_last() =~= a + b.drop_last());
        assert((a + b).filter(f) =~= a.filter(f) + b.filter(f));
    }
}

/// A second slash and a `.` between two slashes count for nothing.
pub proof fn empty_parts_count_for_nothing(a: Seq<char>, part: Seq<char>, b: Seq<char>)
    requires
        a.len() >= 2,
        part.len() == 0 || part == seq!['.'],
        share_of(a + seq!['/'] + (part + seq!['/'] + b)) is None,
        share_of(a + seq!['/'] + b) is None,
    ensures
        same_path(a + seq!['/'] + (part + seq!['/'] + b), a + seq!['/'] + b),
{
    let rest = part + seq!['/'] + b;
    let p = a + seq!['/'] + rest;
    let q = a + seq!['/'] + b;
    let x = forward(after_drive(a));
    let y = forward(b);
    assert(p[0] == a[0] && p[1] == a[1] && q[0] == a[0] && q[1] == a[1]);
    assert(after_drive(p) =~= after_drive(a) + seq!['/'] + rest);
    assert(after_drive(q) =~= after_drive(a) + seq!['/'] + b);
    assert(forward(after_drive(p)) =~= x + seq!['/'] + (part + seq!['/'] + y));
    assert(forward(after_drive(q)) =~= x + seq!['/'] + y);
    text::lemma_pieces_around(x, '/', part + seq!['/'] + y);
    text::lemma_pieces_around(part, '/', y);
    text::lemma_pieces_around(x, '/', y);
    text::lemma_pieces_nonempty(x, '/');
    let none = Seq::<char>::empty();
    text::lemma_pieces_append(none, part, '/');
    assert(none + part =~= part);
    assert(pieces(part, '/') =~= seq![part]);
    let f = |x: Seq<char>| names(x);
    let (ax, py, ay) = (pieces(x, '/'), seq![part] + pieces(y, '/'), pieces(y, '/'));
    lemma_filter_joins(ax, py);
    lemma_filter_joins(seq![part], ay);
    lemma_filter_joins(ax, ay);
    reveal(Seq::filter);
    assert(seq![part].drop_last() =~= Seq::empty());
    assert(seq![part].drop_last().filter(f) =~= Seq::empty());
    assert(seq![part].filter(f) =~= Seq::empty());
    let (m, n) = (pieces(forward(after_drive(p)), '/'), pieces(forward(after_drive(q)), '/'));
    assert(m.skip(0) =~= m);
    assert(n.skip(0) =~= n);
    assert(m.filter(f) =~= n.filter(f));
    assert(m[0] == ax[0] && n[0] == ax[0]);
    if after_drive(a).len() > 0 {
        assert(after_drive(p)[0] == after_drive(a)[0]);
        assert(after_drive(q)[0] == after_drive(a)[0]);
    }
}

proof fn lemma_key_after_same(
    p: Seq<(int, Seq<char>)>,
    x: (int, Seq<char>),
    y: (int, Seq<char>),
)
    requires
        x != y,
    ensures
        key_before(p.push(x), p.push(y)) == part_before(x, y),
    decreases p.len(),
{
    let (a, b) = (p.push(x), p.push(y));
    if p.len() > 0 {
        let q = p.drop_first();
        lemma_key_after_same(q, x, y);
        assert(a.drop_first() =~= q.push(x));
        assert(b.drop_first() =~= q.push(y));
    }
}

/// What lies in one directory is ordered by name.
pub proof fn names_in_a_directory_are_ordered(dir: Seq<char>, a: Seq<char>, b: Seq<char>)
    requires
        dir.len() > 0,
        !is_slash(dir.last()),
        !(has_drive(dir) && dir.len() == 2),
        a != b,
        a.len() > 0 && b.len() > 0,
        a != seq!['.'] && a != seq!['.', '.'],
        b != seq!['.'] && b != seq!['.', '.'],
        forall|i: int| 0 <= i < a.len() ==> !is_slash(#[trigger] a[i]),
        forall|i: int| 0 <= i < b.len() ==> !is_slash(#[trigger] b[i]),
        share_of(joined_path(dir, a)) == share_of(dir),
        share_of(joined_path(dir, b)) == share_of(dir),
    ensures
        key_before(path_key(joined_path(dir, a)), path_key(joined_path(dir, b))) == text_before(
            a,
            b,
        ),
{
    let f = |c: Seq<char>| (part_class(c), c);
    names_are_found_where_they_are_put(dir, a);
    names_are_found_where_they_are_put(dir, b);
    let (p, q) = (joined_path(dir, a), joined_path(dir, b));
    let front = start_key(dir) + components(dir).map_values(f);
    assert(start_key(p) == start_key(dir));
    assert(start_key(q) == start_key(dir));
    assert(path_key(p) =~= front.push((part_class(a), a)));
    assert(path_key(q) =~= front.push((part_class(b), b)));
    lemma_key_after_same(front, (part_class(a), a), (part_class(b), b));
}

} // verus!
