//! Completing names: where a name is being typed, and what it could become.

use vstd::prelude::*;
use vstd::string::*;

use crate::chars::{alphanumeric, lower_text};
use crate::offset;
use crate::offset::{bytes, floor_boundary, is_position, on_boundary, Position};
use crate::order;
use crate::order::{lists, text_before, Contest};
use crate::text;
use crate::text::{begins, trim_start, views};

verus! {

/// How many candidates are offered at most.
pub const MAX_ITEMS: usize = 60;

/// A name of this many characters or more is not completed.
pub const MAX_PREFIX: usize = 64;

/// What names are made of.
pub open spec fn in_name(c: char) -> bool {
    alphanumeric(c) || c == '_' || c == '-'
}

/// Whether names are made of this.
pub fn is_ident_char(c: char) -> (r: bool)
    ensures
        r == in_name(c),
{
    c.is_alphanumeric() || c == '_' || c == '-'
}

/// The name that a text ends with.
pub open spec fn last_name(s: Seq<char>) -> Seq<char>
    decreases s.len(),
{
    if s.len() > 0 && in_name(s.last()) {
        last_name(s.drop_last()).push(s.last())
    } else {
        Seq::empty()
    }
}

/// What a text ends with after its last newline.
pub open spec fn last_line(s: Seq<char>) -> Seq<char>
    decreases s.len(),
{
    if s.len() > 0 && s.last() != '\n' {
        last_line(s.drop_last()).push(s.last())
    } else {
        Seq::empty()
    }
}

/// The name being typed at the end of `head`: the name it ends with, if that is not
/// too long and a `#` stands before it.
pub open spec fn typed_name(head: Seq<char>) -> Option<Seq<char>> {
    let name = last_name(head);
    let k = head.len() - name.len();
    if name.len() < MAX_PREFIX && k > 0 && head[k - 1] == '#' {
        Some(name)
    } else {
        None
    }
}

/// What a candidate is.
#[derive(Clone, Copy, PartialEq, Eq, Debug, Structural)]
pub enum ItemKind {
    Function,
    Keyword,
}

/// A name that the one being typed could become, and the place that it goes to.
pub struct CompletionItem {
    pub label: String,
    pub detail: &'static str,
    pub kind: ItemKind,
    /// The place of the first character to be replaced.
    pub start: Position,
    /// The place after the last.
    pub end: Position,
}

/// Gives candidates; knows the names that the document defines.
pub struct TypstCompletion {
    pub local: Vec<String>,
}

/// All names in the order in which they count, each with its rank: those of the
/// document, the common ones, the keywords, and the rest.
pub open spec fn ranked_names(
    local: Seq<Seq<char>>,
    common: Seq<Seq<char>>,
    keywords: Seq<Seq<char>>,
    builtin: Seq<Seq<char>>,
) -> Seq<(int, Seq<char>)> {
    with_rank(0, local) + with_rank(1, common) + with_rank(2, keywords) + with_rank(3, builtin)
}

pub open spec fn with_rank(rank: int, names: Seq<Seq<char>>) -> Seq<(int, Seq<char>)> {
    names.map_values(|n: Seq<char>| (rank, n))
}

/// Name `i` is offered: it comes for the first time, and begins with the prefix.
pub open spec fn offered(all: Seq<(int, Seq<char>)>, prefix: Seq<char>, i: int) -> bool {
    &&& 0 <= i < all.len()
    &&& forall|j: int| 0 <= j < i ==> (#[trigger] all[j]).1 != all[i].1
    &&& lower_text(prefix).len() == 0 || begins(lower_text(all[i].1), lower_text(prefix))
}

/// Name `i` goes before name `j`: by rank, then by name.
pub open spec fn name_before(all: Seq<(int, Seq<char>)>, i: int, j: int) -> bool {
    if all[i].0 != all[j].0 {
        all[i].0 < all[j].0
    } else if all[i].1 != all[j].1 {
        text_before(all[i].1, all[j].1)
    } else {
        i < j
    }
}

/// What is said of a candidate of this rank.
pub open spec fn detail_of(rank: int) -> Seq<char> {
    if rank == 0 {
        "本文档定义"@
    } else if rank == 1 {
        "常用"@
    } else if rank == 2 {
        "关键字"@
    } else {
        "Typst 内置"@
    }
}

pub open spec fn kind_of_rank(rank: int) -> ItemKind {
    if rank == 2 {
        ItemKind::Keyword
    } else {
        ItemKind::Function
    }
}

/// `item` offers the name `n` in place of bytes `from..to`.
pub open spec fn offers(
    b: Seq<u8>,
    from: int,
    to: int,
    n: (int, Seq<char>),
    item: CompletionItem,
) -> bool {
    &&& item.label@ == n.1
    &&& item.detail@ == detail_of(n.0)
    &&& item.kind == kind_of_rank(n.0)
    &&& is_position(b, from, item.start)
    &&& is_position(b, to, item.end)
}

/// The order of the names that are offered.
pub open spec fn offer_order(
    all: Seq<(int, Seq<char>)>,
    prefix: Seq<char>,
    order: Seq<usize>,
) -> bool {
    lists(
        all.len(),
        |i: int, j: int| name_before(all, i, j),
        |i: int| offered(all, prefix, i),
        order,
    )
}

/// `items` offer the first names in their order, up to the limit.
pub open spec fn offers_all(
    b: Seq<u8>,
    from: int,
    to: int,
    all: Seq<(int, Seq<char>)>,
    order: Seq<usize>,
    items: Seq<CompletionItem>,
) -> bool {
    &&& items.len() == if order.len() <= MAX_ITEMS {
        order.len() as int
    } else {
        MAX_ITEMS as int
    }
    &&& forall|k: int|
        0 <= k < items.len() ==> offers(b, from, to, all[order[k] as int], #[trigger] items[k])
}

/// The line is a comment: `//` comes first, whitespace aside.
pub open spec fn is_comment_line(line: Seq<char>) -> bool {
    begins(trim_start(line), "//"@)
}

/// `items` are the candidates for the name being typed at byte `offset` of `s`, out
/// of `all` names. In a comment line, or where no name is being typed, there are none.
pub open spec fn completes(
    s: Seq<char>,
    offset: int,
    all: Seq<(int, Seq<char>)>,
    items: Seq<CompletionItem>,
) -> bool {
    let head = offset::text_before(s, offset);
    let to = floor_boundary(s, offset);
    if is_comment_line(last_line(head)) || typed_name(head) is None {
        items.len() == 0
    } else {
        exists|order: Seq<usize>| #[trigger]
            offer_order(all, typed_name(head)->0, order) && offers_all(
                bytes(s),
                to - bytes(typed_name(head)->0).len(),
                to,
                all,
                order,
                items,
            )
    }
}

struct ByRank {
    ranks: Vec<u8>,
    names: Vec<Vec<char>>,
    all: Ghost<Seq<(int, Seq<char>)>>,
}

impl Contest for ByRank {
    closed spec fn size(&self) -> nat {
        self.all@.len()
    }

    closed spec fn beats(&self, i: int, j: int) -> bool {
        name_before(self.all@, i, j)
    }

    proof fn strict(&self) {
        let n = self.all@;
        assert forall|i: int, j: int| #[trigger] self.beats(i, j) implies !self.beats(j, i) by {
            order::lemma_text_total(n[i].1, n[j].1);
        }
        assert forall|i: int, j: int|
            0 <= i < self.size() && 0 <= j < self.size() && i != j implies (#[trigger] self.beats(
            i,
            j,
        ) || self.beats(j, i)) by {
            order::lemma_text_total(n[i].1, n[j].1);
        }
        assert forall|i: int, j: int, k: int| #[trigger]
            self.beats(i, j) && #[trigger] self.beats(j, k) implies self.beats(i, k) by {
            order::lemma_text_total(n[i].1, n[j].1);
            order::lemma_text_total(n[j].1, n[k].1);
            order::lemma_text_total(n[i].1, n[k].1);
            if text_before(n[i].1, n[j].1) && text_before(n[j].1, n[k].1) {
                order::lemma_text_transitive(n[i].1, n[j].1, n[k].1);
            }
        }
    }

    closed spec fn ready(&self) -> bool {
        &&& self.ranks@.len() == self.all@.len()
        &&& self.names@.len() == self.all@.len()
        &&& forall|i: int| 0 <= i < self.all@.len() ==> #[trigger] self.ranks@[i] == self.all@[i].0
        &&& forall|i: int|
            0 <= i < self.all@.len() ==> (#[trigger] self.names@[i])@ == self.all@[i].1
    }

    fn goes_before(&self, i: usize, j: usize) -> (r: bool) {
        if self.ranks[i] != self.ranks[j] {
            return self.ranks[i] < self.ranks[j];
        }
        assert(self.names@[i as int]@ == self.all@[i as int].1);
        assert(self.names@[j as int]@ == self.all@[j as int].1);
        proof {
            order::lemma_text_total(self.names@[i as int]@, self.names@[j as int]@);
        }
        if order::is_text_before(&self.names[i], &self.names[j]) {
            return true;
        }
        if order::is_text_before(&self.names[j], &self.names[i]) {
            return false;
        }
        i < j
    }
}

/// Names with machine ranks.
pub open spec fn list_view(ranks: Seq<u8>, names: Seq<Vec<char>>) -> Seq<(int, Seq<char>)> {
    Seq::new(names.len(), |i: int| (ranks[i] as int, names[i]@))
}

fn add_names(ranks: &mut Vec<u8>, names: &mut Vec<Vec<char>>, rank: u8, more: &[String])
    requires
        old(ranks)@.len() == old(names)@.len(),
    ensures
        final(ranks)@.len() == final(names)@.len(),
        list_view(final(ranks)@, final(names)@) == list_view(old(ranks)@, old(names)@) + with_rank(
            rank as int,
            views(more@),
        ),
{
    let ghost base = list_view(ranks@, names@);
    let ghost add = with_rank(rank as int, views(more@));
    let mut i: usize = 0;
    assert(base + add.take(0) =~= base);
    while i < more.len()
        invariant
            i <= more@.len(),
            add == with_rank(rank as int, views(more@)),
            ranks@.len() == names@.len(),
            list_view(ranks@, names@) == base + add.take(i as int),
        decreases more@.len() - i,
    {
        let ghost before = list_view(ranks@, names@);
        ranks.push(rank);
        names.push(text::chars_of(more[i].as_str()));
        assert(add[i as int] == (rank as int, more@[i as int]@));
        assert(list_view(ranks@, names@) =~= before.push(add[i as int]));
        assert(list_view(ranks@, names@) =~= base + add.take(i + 1));
        i += 1;
    }
    assert(add.take(i as int) =~= add);
}

/// Where the name begins that a text ends with.
fn name_start(v: &Vec<char>) -> (r: usize)
    ensures
        r <= v@.len(),
        last_name(v@) == v@.skip(r as int),
{
    let n: usize = v.len();
    let mut k: usize = n;
    assert(v@.skip(n as int) =~= Seq::empty());
    assert(v@.take(n as int) =~= v@);
    assert(last_name(v@) =~= last_name(v@.take(n as int)) + v@.skip(n as int));
    while k > 0 && is_ident_char(v[k - 1])
        invariant
            k <= n,
            n == v@.len(),
            last_name(v@) == last_name(v@.take(k as int)) + v@.skip(k as int),
        decreases k,
    {
        assert(v@.take(k as int).drop_last() =~= v@.take(k - 1));
        assert(last_name(v@.take(k as int)) + v@.skip(k as int) =~= last_name(v@.take(k - 1))
            + v@.skip(k - 1));
        k -= 1;
    }
    assert(last_name(v@.take(k as int)) =~= Seq::empty());
    assert(last_name(v@) =~= v@.skip(k as int));
    k
}

/// A name that the text before a boundary ends with begins at a boundary.
proof fn lemma_name_begins(source: Seq<char>, offset: int, front: Seq<char>, name: Seq<char>)
    requires
        on_boundary(source, offset),
        front + name == offset::text_before(source, offset),
    ensures
        bytes(name).len() <= offset,
        on_boundary(source, offset - bytes(name).len()),
{
    offset::lemma_floor_boundary(source, offset);
    offset::lemma_bytes_concat(front, name);
    offset::lemma_boundary_in_range(source, offset);
    offset::lemma_parts_at(source, offset);
    let tail = offset::parts_at(source, offset).1;
    assert(front + (name + tail) =~= source);
    offset::lemma_prefix_boundary(front, name + tail);
}

impl TypstCompletion {
    /// Gives candidates for a document that defines these names.
    pub fn new(local: Vec<String>) -> (r: Self)
        ensures
            r.local == local,
    {
        TypstCompletion { local }
    }

    /// The name being typed before byte `offset`, and the byte where it begins;
    /// nothing where none is, or where `offset` is no character boundary.
    pub fn prefix_at(&self, source: &str, offset: usize) -> (r: Option<(String, usize)>)
        ensures
            match r {
                Some((name, start)) => {
                    &&& on_boundary(source@, offset as int)
                    &&& typed_name(offset::text_before(source@, offset as int)) == Some(name@)
                    &&& start == offset - bytes(name@).len()
                    &&& on_boundary(source@, start as int)
                },
                None => !on_boundary(source@, offset as int) || typed_name(
                    offset::text_before(source@, offset as int),
                ) is None,
            },
    {
        proof {
            offset::lemma_floor_boundary(source@, offset as int);
        }
        if offset::floor_char_boundary(source, offset) != offset {
            return None;
        }
        let head = offset::before(source, offset);
        let v = text::chars_of(head);
        let n: usize = v.len();
        let k: usize = name_start(&v);
        let name = text::text_of(&v, k, n);
        assert(last_name(v@) =~= name@);
        if n - k >= MAX_PREFIX {
            return None;
        }
        if k == 0 || v[k - 1] != '#' {
            return None;
        }
        let size: usize = offset::size(name.as_str());
        proof {
            assert(v@.take(k as int) + name@ =~= head@);
            lemma_name_begins(source@, offset as int, v@.take(k as int), name@);
        }
        Some((name, offset - size))
    }

    /// Whether byte `offset` stands in a comment line.
    pub fn in_comment(&self, source: &str, offset: usize) -> (r: bool)
        ensures
            r == is_comment_line(last_line(offset::text_before(source@, offset as int))),
    {
        let head = offset::before(source, offset);
        let v = text::chars_of(head);
        let n: usize = v.len();
        let mut k: usize = n;
        assert(v@.take(n as int) =~= v@);
        assert(last_line(v@) =~= last_line(v@.take(n as int)) + v@.subrange(n as int, n as int));
        while k > 0 && v[k - 1] != '\n'
            invariant
                k <= n,
                n == v@.len(),
                last_line(v@) == last_line(v@.take(k as int)) + v@.subrange(k as int, n as int),
            decreases k,
        {
            assert(v@.take(k as int).drop_last() =~= v@.take(k - 1));
            assert(last_line(v@.take(k as int)) + v@.subrange(k as int, n as int) =~= last_line(
                v@.take(k - 1),
            ) + v@.subrange(k - 1, n as int));
            k -= 1;
        }
        assert(last_line(v@) =~= v@.subrange(k as int, n as int));
        while k < n && text::space(v[k])
            invariant
                k <= n,
                n == v@.len(),
                trim_start(last_line(v@)) == trim_start(v@.subrange(k as int, n as int)),
            decreases n - k,
        {
            assert(v@.subrange(k as int, n as int).drop_first() =~= v@.subrange(k + 1, n as int));
            k += 1;
        }
        let line = text::text_of(&v, k, n);
        assert(trim_start(last_line(v@)) =~= line@);
        text::starts_with(line.as_str(), "//")
    }

    /// The candidates for the name being typed at byte `offset`: no more than the
    /// limit, by rank, then by name. In a comment line, or where no name is being typed,
    /// there are none.
    pub fn candidates(
        &self,
        source: &str,
        offset: usize,
        common: &[String],
        keywords: &[String],
        builtin: &[String],
    ) -> (r: Vec<CompletionItem>)
        ensures
            completes(
                source@,
                offset as int,
                ranked_names(
                    views(self.local@),
                    views(common@),
                    views(keywords@),
                    views(builtin@),
                ),
                r@,
            ),
    {
        let at: usize = offset::floor_char_boundary(source, offset);
        proof {
            offset::lemma_floor_boundary(source@, offset as int);
            offset::lemma_floor_boundary(source@, at as int);
        }
        if self.in_comment(source, at) {
            return Vec::new();
        }
        let (prefix, start) = match self.prefix_at(source, at) {
            Some(p) => p,
            None => {
                return Vec::new();
            },
        };
        let low = prefix.as_str().to_lowercase();
        let low_chars = text::chars_of(low.as_str());
        let mut ranks: Vec<u8> = Vec::new();
        let mut names: Vec<Vec<char>> = Vec::new();
        let ghost all = ranked_names(
            views(self.local@),
            views(common@),
            views(keywords@),
            views(builtin@),
        );
        assert(list_view(ranks@, names@) =~= Seq::empty());
        add_names(&mut ranks, &mut names, 0, self.local.as_slice());
        add_names(&mut ranks, &mut names, 1, common);
        add_names(&mut ranks, &mut names, 2, keywords);
        add_names(&mut ranks, &mut names, 3, builtin);
        assert(list_view(ranks@, names@) =~= all);
        let n: usize = names.len();
        assert(all.len() == n);
        let mut marked: Vec<bool> = Vec::new();
        let mut i: usize = 0;
        while i < n
            invariant
                i <= n,
                n == names@.len(),
                n == ranks@.len(),
                all == list_view(ranks@, names@),
                low_chars@ == lower_text(prefix@),
                marked@.len() == i,
                forall|k: int| 0 <= k < i ==> marked@[k] == offered(all, prefix@, k),
            decreases n - i,
        {
            assert(all[i as int].1 == names@[i as int]@);
            let mut new = true;
            let mut j: usize = 0;
            while j < i && new
                invariant
                    j <= i < n,
                    n == names@.len(),
                    all == list_view(ranks@, names@),
                    all[i as int].1 == names@[i as int]@,
                    new == (forall|k: int| 0 <= k < j ==> (#[trigger] all[k]).1 != all[i as int].1),
                decreases i - j,
            {
                assert(all[j as int].1 == names@[j as int]@);
                if text::same_chars(&names[j], &names[i]) {
                    new = false;
                }
                j += 1;
            }
            let name = text::text_of(&names[i], 0, names[i].len());
            assert(names@[i as int]@.subrange(0, names@[i as int]@.len() as int)
                =~= names@[i as int]@);
            let low_name = text::chars_of(name.as_str().to_lowercase().as_str());
            let fits = low_chars.len() == 0 || text::matches_at(&low_name, &low_chars, 0);
            marked.push(new && fits);
            i += 1;
        }
        let contest = ByRank { ranks, names, all: Ghost(all) };
        let order = order::put_in_order(&contest, &marked);
        proof {
            let before = |i: int, j: int| name_before(all, i, j);
            let chosen = |i: int| offered(all, prefix@, i);
            let on = |i: int| 0 <= i < marked@.len() && marked@[i];
            assert forall|k: int| 0 <= k < order@.len() implies (#[trigger] order@[k]) < all.len()
                && chosen(order@[k] as int) by {
                assert(on(order@[k] as int));
            }
            assert forall|i: usize| i < all.len() && chosen(i as int) implies #[trigger] order@.contains(
                i,
            ) by {
                assert(on(i as int));
            }
            assert forall|j: int, k: int| 0 <= j < k < order@.len() implies #[trigger] before(
                order@[j] as int,
                order@[k] as int,
            ) by {
                assert(contest.beats(order@[j] as int, order@[k] as int));
            }
            assert(offer_order(all, prefix@, order@));
        }
        let count: usize = if order.len() <= MAX_ITEMS {
            order.len()
        } else {
            MAX_ITEMS
        };
        let b = source.as_bytes();
        proof {
            offset::lemma_boundary_in_range(source@, start as int);
        }
        let from = offset::position_at(b, start);
        let to = offset::position_at(b, at);
        let mut out: Vec<CompletionItem> = Vec::new();
        let mut k: usize = 0;
        while k < count
            invariant
                k <= count <= order@.len(),
                contest.ready(),
                contest.all@ == all,
                forall|j: int| 0 <= j < order@.len() ==> (#[trigger] order@[j]) < all.len(),
                is_position(b@, start as int, from),
                is_position(b@, at as int, to),
                out@.len() == k,
                forall|j: int|
                    0 <= j < k ==> offers(
                        b@,
                        start as int,
                        at as int,
                        all[order@[j] as int],
                        #[trigger] out@[j],
                    ),
            decreases count - k,
        {
            let i: usize = order[k];
            let rank: u8 = contest.ranks[i];
            let label = text::text_of(&contest.names[i], 0, contest.names[i].len());
            assert(contest.names@[i as int]@ == all[i as int].1);
            assert(label@ =~= all[i as int].1);
            let detail = if rank == 0 {
                "本文档定义"
            } else if rank == 1 {
                "常用"
            } else if rank == 2 {
                "关键字"
            } else {
                "Typst 内置"
            };
            let kind = if rank == 2 {
                ItemKind::Keyword
            } else {
                ItemKind::Function
            };
            out.push(CompletionItem { label, detail, kind, start: from, end: to });
            k += 1;
        }
        proof {
            let head = offset::text_before(source@, offset as int);
            assert(typed_name(head) == Some(prefix@));
            assert(floor_boundary(source@, offset as int) == at);
            assert(start == at - bytes(prefix@).len());
            assert(offers_all(bytes(source@), at - bytes(prefix@).len(), at as int, all, order@, out@));
            assert(offer_order(all, typed_name(head)->0, order@));
        }
        out
    }

    /// Whether typing `new_text` is a reason to look for candidates: it ends with a
    /// character of names.
    pub fn is_completion_trigger(&self, new_text: &str) -> (r: bool)
        ensures
            r == (new_text@.len() > 0 && in_name(new_text@.last())),
    {
        let v = text::chars_of(new_text);
        v.len() > 0 && is_ident_char(v[v.len() - 1])
    }
}

/// No name is offered twice.
pub proof fn candidates_are_distinct(
    all: Seq<(int, Seq<char>)>,
    prefix: Seq<char>,
    order: Seq<usize>,
    j: int,
    k: int,
)
    requires
        offer_order(all, prefix, order),
        0 <= j < k < order.len(),
    ensures
        all[order[j] as int].1 != all[order[k] as int].1,
{
    let before = |i: int, j: int| name_before(all, i, j);
    let chosen = |i: int| offered(all, prefix, i);
    let a = order[j] as int;
    let b = order[k] as int;
    assert(chosen(order[j] as int) && chosen(order[k] as int));
    assert(before(order[j] as int, order[k] as int));
    assert(a != b) by {
        order::lemma_text_total(all[a].1, all[a].1);
    }
    if a < b {
        assert(all[a].1 != all[b].1);
    } else {
        assert(all[b].1 != all[a].1);
    }
}

/// Names of the document come before all others.
pub proof fn local_names_come_first(
    all: Seq<(int, Seq<char>)>,
    prefix: Seq<char>,
    order: Seq<usize>,
    j: int,
    k: int,
)
    requires
        offer_order(all, prefix, order),
        0 <= j < order.len(),
        0 <= k < order.len(),
        all[order[j] as int].0 == 0,
        all[order[k] as int].0 > 0,
    ensures
        j < k,
{
    let before = |i: int, j: int| name_before(all, i, j);
    if k < j {
        assert(before(order[k] as int, order[j] as int));
    }
}

proof fn lemma_last_name(head: Seq<char>, name: Seq<char>)
    requires
        head.len() > 0 ==> !in_name(head.last()),
        forall|i: int| 0 <= i < name.len() ==> in_name(#[trigger] name[i]),
    ensures
        last_name(head + name) == name,
    decreases name.len(),
{
    if name.len() == 0 {
        assert(head + name =~= head);
        assert(last_name(head) =~= name);
    } else {
        let some = name.drop_last();
        assert forall|i: int| 0 <= i < some.len() implies in_name(#[trigger] some[i]) by {
            assert(some[i] == name[i]);
        }
        lemma_last_name(head, some);
        assert((head + name).drop_last() =~= head + some);
        assert(in_name(name[name.len() - 1]));
        assert(last_name(head + name) =~= name);
    }
}

/// What is typed after a `#` is completed, all of it, however long the text before it is.
pub proof fn the_name_after_a_hash_is_completed(head: Seq<char>, name: Seq<char>)
    requires
        !in_name('#'),
        forall|i: int| 0 <= i < name.len() ==> in_name(#[trigger] name[i]),
        name.len() < MAX_PREFIX,
    ensures
        typed_name(head + seq!['#'] + name) == Some(name),
{
    let all = head + seq!['#'] + name;
    lemma_last_name(head + seq!['#'], name);
    assert(all[head.len() as int] == '#');
}

/// A name without a `#` before it is not completed.
pub proof fn a_name_without_a_hash_is_not_completed(head: Seq<char>, name: Seq<char>)
    requires
        head.len() > 0 ==> !in_name(head.last()) && head.last() != '#',
        forall|i: int| 0 <= i < name.len() ==> in_name(#[trigger] name[i]),
    ensures
        typed_name(head + name) is None,
{
    lemma_last_name(head, name);
    if head.len() > 0 {
        assert((head + name)[head.len() - 1] == head.last());
    }
}

proof fn lemma_last_line(text: Seq<char>, line: Seq<char>)
    requires
        text.len() > 0 ==> text.last() == '\n',
        forall|i: int| 0 <= i < line.len() ==> #[trigger] line[i] != '\n',
    ensures
        last_line(text + line) == line,
    decreases line.len(),
{
    if line.len() == 0 {
        assert(text + line =~= text);
        assert(last_line(text) =~= line);
    } else {
        let some = line.drop_last();
        assert forall|i: int| 0 <= i < some.len() implies #[trigger] some[i] != '\n' by {
            assert(some[i] == line[i]);
        }
        lemma_last_line(text, some);
        assert((text + line).drop_last() =~= text + some);
        assert(line[line.len() - 1] != '\n');
        assert(last_line(text + line) =~= line);
    }
}

/// A line that begins with two slashes, behind whitespace or not, is a comment to its end;
/// one that begins with anything else is none, and what stood on the lines before it does
/// not matter.
pub proof fn comments_are_lines_that_begin_with_two_slashes(
    text: Seq<char>,
    blank: Seq<char>,
    rest: Seq<char>,
)
    requires
        text.len() > 0 ==> text.last() == '\n',
        text::all_space(blank),
        rest.len() > 0 ==> !text::is_space(rest[0]),
        forall|i: int| 0 <= i < blank.len() ==> #[trigger] blank[i] != '\n',
        forall|i: int| 0 <= i < rest.len() ==> #[trigger] rest[i] != '\n',
    ensures
        is_comment_line(last_line(text + (blank + rest))) <==> rest.len() >= 2 && rest[0] == '/'
            && rest[1] == '/',
{
    let line = blank + rest;
    reveal_strlit("//");
    assert forall|i: int| 0 <= i < line.len() implies #[trigger] line[i] != '\n' by {
        if i < blank.len() {
            assert(line[i] == blank[i]);
        } else {
            assert(line[i] == rest[i - blank.len()]);
        }
    }
    lemma_last_line(text, line);
    text::lemma_trim_start(line);
    let t = trim_start(line);
    let cut = line.len() - t.len();
    if rest.len() == 0 {
        if t.len() > 0 {
            assert(t[0] == blank[cut]);
        }
    } else {
        if cut < blank.len() {
            assert(t[0] == blank[cut]);
        }
        if cut > blank.len() {
            assert(line.take(cut)[blank.len() as int] == rest[0]);
        }
        assert(t =~= rest);
        if rest.len() >= 2 && rest[0] == '/' && rest[1] == '/' {
            assert(rest.subrange(0, 2) =~= "//"@);
            assert(rest.take(2) =~= "//"@);
        }
        if begins(rest, "//"@) {
            assert(rest.subrange(0, 2)[0] == '/' && rest.subrange(0, 2)[1] == '/');
        }
    }
}

proof fn lemma_first_of_name(all: Seq<(int, Seq<char>)>, i: int) -> (r: int)
    requires
        0 <= i < all.len(),
    ensures
        0 <= r <= i,
        all[r].1 == all[i].1,
        forall|j: int| 0 <= j < r ==> (#[trigger] all[j]).1 != all[i].1,
    decreases i,
{
    if exists|j: int| 0 <= j < i && (#[trigger] all[j]).1 == all[i].1 {
        let j = choose|j: int| 0 <= j < i && (#[trigger] all[j]).1 == all[i].1;
        lemma_first_of_name(all, j)
    } else {
        i
    }
}

/// No fitting name is left out: every name that begins with what is typed, large or small,
/// is offered, unless as many as there may be are offered already.
pub proof fn every_fitting_name_is_offered(
    s: Seq<char>,
    offset: int,
    all: Seq<(int, Seq<char>)>,
    items: Seq<CompletionItem>,
    i: int,
)
    requires
        completes(s, offset, all, items),
        all.len() <= usize::MAX,
        !is_comment_line(last_line(offset::text_before(s, offset))),
        typed_name(offset::text_before(s, offset)) is Some,
        0 <= i < all.len(),
        begins(
            lower_text(all[i].1),
            lower_text(typed_name(offset::text_before(s, offset))->0),
        ),
    ensures
        items.len() == MAX_ITEMS || exists|k: int|
            0 <= k < items.len() && (#[trigger] items[k]).label@ == all[i].1,
{
    let head = offset::text_before(s, offset);
    let prefix = typed_name(head)->0;
    let to = floor_boundary(s, offset);
    let order = choose|order: Seq<usize>| #[trigger]
        offer_order(all, prefix, order) && offers_all(
            bytes(s),
            to - bytes(prefix).len(),
            to,
            all,
            order,
            items,
        );
    let chosen = |i: int| offered(all, prefix, i);
    let f = lemma_first_of_name(all, i);
    assert(chosen(f as usize as int));
    assert(order.contains(f as usize));
    let k = choose|k: int| 0 <= k < order.len() && order[k] == f as usize;
    if k < items.len() {
        assert(items[k].label@ == all[i].1);
    }
}

/// Every name that is offered is one of the names, begins with what is typed, and takes its
/// place: it goes where the typed name begins and ends.
pub proof fn offered_names_continue_what_is_typed(
    s: Seq<char>,
    offset: int,
    all: Seq<(int, Seq<char>)>,
    items: Seq<CompletionItem>,
    k: int,
)
    requires
        completes(s, offset, all, items),
        0 <= k < items.len(),
    ensures
        items.len() <= MAX_ITEMS,
        typed_name(offset::text_before(s, offset)) is Some,
        exists|i: int| 0 <= i < all.len() && (#[trigger] all[i]).1 == items[k].label@,
        ({
            let prefix = typed_name(offset::text_before(s, offset))->0;
            &&& lower_text(prefix).len() == 0 || begins(
                lower_text(items[k].label@),
                lower_text(prefix),
            )
            &&& is_position(
                bytes(s),
                floor_boundary(s, offset) - bytes(prefix).len(),
                items[k].start,
            )
            &&& is_position(bytes(s), floor_boundary(s, offset), items[k].end)
        }),
{
    let head = offset::text_before(s, offset);
    let prefix = typed_name(head)->0;
    let to = floor_boundary(s, offset);
    let order = choose|order: Seq<usize>| #[trigger]
        offer_order(all, prefix, order) && offers_all(
            bytes(s),
            to - bytes(prefix).len(),
            to,
            all,
            order,
            items,
        );
    let chosen = |i: int| offered(all, prefix, i);
    assert(chosen(order[k] as int));
    assert(all[order[k] as int].1 == items[k].label@);
}

/// The names of the document have the first rank, then come the common ones, the keywords,
/// and the rest; each list is there whole.
pub proof fn names_are_ranked_by_where_they_come_from(
    local: Seq<Seq<char>>,
    common: Seq<Seq<char>>,
    keywords: Seq<Seq<char>>,
    builtin: Seq<Seq<char>>,
    i: int,
)
    requires
        0 <= i,
    ensures
        ({
            let all = ranked_names(local, common, keywords, builtin);
            let (a, b, c) = (
                local.len(),
                local.len() + common.len(),
                local.len() + common.len() + keywords.len(),
            );
            &&& all.len() == c + builtin.len()
            &&& i < local.len() ==> all[i] == (0int, local[i])
            &&& i < common.len() ==> all[a + i] == (1int, common[i])
            &&& i < keywords.len() ==> all[b + i] == (2int, keywords[i])
            &&& i < builtin.len() ==> all[c + i] == (3int, builtin[i])
        }),
{
}

} // verus!
