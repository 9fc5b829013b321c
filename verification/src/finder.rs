//! Finding files by a few of their characters.

use vstd::prelude::*;
use vstd::string::*;

use crate::chars::{ascii_lower, fold_ascii, lowercase, uppercase};
use crate::order;
use crate::order::Contest;
use crate::path;
use crate::path::joined_path;
use crate::text;
use crate::text::{is_space, pieces, views};
use crate::tree;
use crate::tree::{is_heavy, is_hidden, Entry};

verus! {

/// How deep directories are looked into.
pub const MAX_DEPTH: usize = 12;

/// The characters of a query that count.
pub open spec fn query_chars(query: Seq<char>) -> Seq<char> {
    query.filter(|c: char| !is_space(c))
}

/// The same letter, whether small or capital (of ASCII).
pub open spec fn same_letter(a: char, b: char) -> bool {
    ascii_lower(a) == ascii_lower(b)
}

/// Where the characters of `q` are found in `c`, each as early as can be: fewer
/// places than characters where not all are.
pub open spec fn hits(q: Seq<char>, c: Seq<char>) -> Seq<int>
    decreases c.len(),
{
    if c.len() == 0 {
        Seq::empty()
    } else {
        let before = hits(q, c.drop_last());
        if before.len() < q.len() && same_letter(c.last(), q[before.len() as int]) {
            before.push(c.len() - 1)
        } else {
            before
        }
    }
}

pub open spec fn is_separator(c: char) -> bool {
    c == '/' || c == '\\' || c == '_' || c == '-' || c == '.' || c == ' '
}

/// A word begins at `here` after `prev`: after a separator, or where the case
/// switches.
pub open spec fn word_begins(prev: char, here: char) -> bool {
    is_separator(prev) || (lowercase(prev) && uppercase(here)) || (uppercase(prev) && lowercase(
        here,
    ))
}

/// Whether a word begins at `here` after `prev`.
pub fn is_boundary(prev: char, here: char) -> (r: bool)
    ensures
        r == word_begins(prev, here),
{
    if prev == '/' || prev == '\\' || prev == '_' || prev == '-' || prev == '.' || prev == ' ' {
        return true;
    }
    (prev.is_lowercase() && here.is_uppercase()) || (prev.is_uppercase() && here.is_lowercase())
}

/// Where the file name begins in a path: after the last separator of directories.
pub open spec fn name_start(c: Seq<char>) -> int
    decreases c.len(),
{
    if c.len() == 0 {
        0
    } else if c.last() == '/' || c.last() == '\\' {
        c.len() as int
    } else {
        name_start(c.drop_last())
    }
}

/// What hit number `k` is worth: 1; 8 more next to the hit before it; 6 more where
/// a word begins; 4 more in the file name.
pub open spec fn worth(c: Seq<char>, at: Seq<int>, k: int) -> int {
    1 + (if k > 0 && at[k - 1] == at[k] - 1 {
        8int
    } else {
        0
    }) + (if at[k] == 0 || word_begins(c[at[k] - 1], c[at[k]]) {
        6int
    } else {
        0
    }) + (if at[k] >= name_start(c) {
        4int
    } else {
        0
    })
}

/// What the first `n` hits are worth.
pub open spec fn worth_of_all(c: Seq<char>, at: Seq<int>, n: int) -> int
    decreases n,
{
    if n <= 0 {
        0
    } else {
        worth_of_all(c, at, n - 1) + worth(c, at, n - 1)
    }
}

/// How well `candidate` fits `query`; none where it does not. A query without
/// characters fits everything. A long candidate is worth a little less.
pub open spec fn fitness(query: Seq<char>, candidate: Seq<char>) -> Option<int> {
    let q = query_chars(query);
    let at = hits(q, candidate);
    if q.len() == 0 {
        Some(0)
    } else if at.len() < q.len() {
        None
    } else {
        Some(worth_of_all(candidate, at, at.len() as int) - candidate.len() as int / 8)
    }
}

fn without_spaces(query: &str) -> (r: Vec<char>)
    ensures
        r@ == query_chars(query@),
{
    let v = text::chars_of(query);
    let mut out: Vec<char> = Vec::new();
    let ghost pred = |c: char| !is_space(c);
    let mut i: usize = 0;
    proof {
        reveal(Seq::filter);
        assert(v@.take(0).filter(pred) =~= out@);
    }
    while i < v.len()
        invariant
            i <= v@.len(),
            pred == (|c: char| !is_space(c)),
            out@ == v@.take(i as int).filter(pred),
        decreases v@.len() - i,
    {
        proof {
            reveal(Seq::filter);
            assert(v@.take(i + 1).drop_last() =~= v@.take(i as int));
        }
        if !text::space(v[i]) {
            out.push(v[i]);
        }
        i += 1;
    }
    assert(v@.take(i as int) =~= v@);
    out
}

fn start_of_name(v: &Vec<char>) -> (r: usize)
    ensures
        r == name_start(v@),
        r <= v@.len(),
{
    let mut n: usize = v.len();
    assert(v@.take(n as int) =~= v@);
    while n > 0 && v[n - 1] != '/' && v[n - 1] != '\\'
        invariant
            n <= v@.len(),
            name_start(v@) == name_start(v@.take(n as int)),
        decreases n,
    {
        assert(v@.take(n as int).drop_last() =~= v@.take(n - 1));
        n -= 1;
    }
    n
}

proof fn lemma_hits(q: Seq<char>, c: Seq<char>)
    ensures
        hits(q, c).len() <= q.len(),
        hits(q, c).len() <= c.len(),
        forall|k: int| 0 <= k < hits(q, c).len() ==> 0 <= #[trigger] hits(q, c)[k] < c.len(),
        forall|k: int|
            0 <= k < hits(q, c).len() ==> same_letter(c[#[trigger] hits(q, c)[k]], q[k]),
        forall|j: int, k: int| 0 <= j < k < hits(q, c).len() ==> hits(q, c)[j] < hits(q, c)[k],
    decreases c.len(),
{
    if c.len() > 0 {
        let d = c.drop_last();
        lemma_hits(q, d);
        let before = hits(q, d);
        let now = hits(q, c);
        assert forall|k: int| 0 <= k < now.len() implies same_letter(c[#[trigger] now[k]], q[k]) by {
            if k < before.len() {
                assert(now[k] == before[k]);
                assert(d[before[k]] == c[before[k]]);
            }
        }
    }
}

proof fn lemma_worth_range(c: Seq<char>, at: Seq<int>, n: int)
    requires
        0 <= n,
    ensures
        0 <= worth_of_all(c, at, n) <= 19 * n,
    decreases n,
{
    if n > 0 {
        lemma_worth_range(c, at, n - 1);
    }
}

/// What hits are worth does not depend on later hits.
proof fn lemma_worth_prefix(c: Seq<char>, a: Seq<int>, b: Seq<int>, n: int)
    requires
        0 <= n <= a.len(),
        n <= b.len(),
        forall|k: int| 0 <= k < n ==> a[k] == b[k],
    ensures
        worth_of_all(c, a, n) == worth_of_all(c, b, n),
    decreases n,
{
    if n > 0 {
        lemma_worth_prefix(c, a, b, n - 1);
    }
}

proof fn lemma_hits_full(q: Seq<char>, c: Seq<char>, i: int)
    requires
        0 <= i <= c.len(),
        hits(q, c.take(i)).len() == q.len(),
    ensures
        hits(q, c) == hits(q, c.take(i)),
    decreases c.len() - i,
{
    if i == c.len() {
        assert(c.take(i) =~= c);
    } else {
        assert(c.take(i + 1).drop_last() =~= c.take(i));
        lemma_hits_full(q, c, i + 1);
    }
}

/// How well `candidate` fits `query`; none where it does not.
pub fn score(query: &str, candidate: &str) -> (r: Option<i32>)
    requires
        candidate@.len() * 19 <= i32::MAX,
    ensures
        match r {
            Some(n) => fitness(query@, candidate@) == Some(n as int),
            None => fitness(query@, candidate@) is None,
        },
{
    let q = without_spaces(query);
    if q.len() == 0 {
        return Some(0);
    }
    let c = text::chars_of(candidate);
    let len: usize = c.len();
    let start: usize = start_of_name(&c);
    let mut total: i32 = 0;
    let mut found: usize = 0;
    let mut prev: Option<usize> = None;
    let mut i: usize = 0;
    let ghost mut at: Seq<int> = Seq::empty();
    assert(hits(q@, c@.take(0)) =~= at);
    while i < len && found < q.len()
        invariant
            i <= len,
            len == c@.len(),
            len * 19 <= i32::MAX,
            start == name_start(c@),
            found <= q@.len(),
            found <= i,
            at == hits(q@, c@.take(i as int)),
            at.len() == found,
            found == 0 ==> prev is None,
            found > 0 ==> prev == Some(at[found - 1] as usize) && 0 <= at[found - 1] < i,
            total == worth_of_all(c@, at, found as int),
            0 <= total <= 19 * found,
        decreases len - i,
    {
        let ghost before = at;
        assert(c@.take(i + 1).drop_last() =~= c@.take(i as int));
        let here: char = c[i];
        if fold_ascii(here) == fold_ascii(q[found]) {
            proof {
                at = at.push(i as int);
                lemma_worth_prefix(c@, before, at, found as int);
            }
            let mut add: i32 = 1;
            if let Some(p) = prev {
                if i > 0 && p == i - 1 {
                    add += 8;
                }
            }
            if i == 0 || is_boundary(c[i - 1], here) {
                add += 6;
            }
            if i >= start {
                add += 4;
            }
            assert(add == worth(c@, at, found as int));
            total += add;
            prev = Some(i);
            found += 1;
        }
        i += 1;
    }
    if found < q.len() {
        assert(c@.take(i as int) =~= c@);
        return None;
    }
    proof {
        lemma_hits_full(q@, c@, i as int);
    }
    Some(total - (len as i32) / 8)
}

/// `at` picks characters of `c` that spell `q`, in order.
pub open spec fn spells(q: Seq<char>, c: Seq<char>, at: Seq<int>) -> bool {
    &&& at.len() == q.len()
    &&& forall|k: int| 0 <= k < at.len() ==> 0 <= #[trigger] at[k] < c.len() && same_letter(
        c[at[k]],
        q[k],
    )
    &&& forall|j: int, k: int| 0 <= j < k < at.len() ==> at[j] < at[k]
}

/// Hits come as early as any other way to spell the first characters.
proof fn lemma_hits_early(q: Seq<char>, c: Seq<char>, at: Seq<int>, n: int)
    requires
        spells(q, c, at),
        0 <= n <= q.len(),
    ensures
        hits(q, c).len() >= n,
        forall|k: int| 0 <= k < n ==> hits(q, c)[k] <= at[k],
    decreases n,
{
    if n > 0 {
        lemma_hits_early(q, c, at, n - 1);
        lemma_hits_reach(q, c, at[n - 1] + 1, n - 1, at);
    }
}

/// Once a character can be found before place `i`, it is.
proof fn lemma_hits_reach(q: Seq<char>, c: Seq<char>, i: int, k: int, at: Seq<int>)
    requires
        spells(q, c, at),
        0 <= k < q.len(),
        at[k] < i <= c.len(),
        k > 0 ==> hits(q, c).len() >= k && hits(q, c)[k - 1] <= at[k - 1],
    ensures
        hits(q, c).len() > k,
        hits(q, c)[k] <= at[k],
{
    let p = at[k];
    lemma_hits_prefix(q, c, p);
    lemma_hits_prefix(q, c, p + 1);
    let before = hits(q, c.take(p));
    let now = hits(q, c.take(p + 1));
    assert(c.take(p + 1).drop_last() =~= c.take(p));
    lemma_hits(q, c);
    lemma_hits(q, c.take(p));
    lemma_hits(q, c.take(p + 1));
    assert(before.len() >= k) by {
        if before.len() < k {
            let h = hits(q, c);
            assert(at[k - 1] < at[k]);
            assert(h[k - 1] < p);
            lemma_hits_count(q, c, p, k - 1);
        }
    }
    if before.len() == k {
        assert(now == before.push(p));
        assert(now[k] == p);
    } else {
        assert(before[k] < p);
        assert(hits(q, c)[k] == before[k]);
    }
}

/// The hits in a leading part are the leading hits.
proof fn lemma_hits_prefix(q: Seq<char>, c: Seq<char>, i: int)
    requires
        0 <= i <= c.len(),
    ensures
        hits(q, c.take(i)).len() <= hits(q, c).len(),
        forall|k: int| 0 <= k < hits(q, c.take(i)).len() ==> hits(q, c.take(i))[k] == hits(q, c)[k],
    decreases c.len() - i,
{
    if i == c.len() {
        assert(c.take(i) =~= c);
    } else {
        lemma_hits_prefix(q, c, i + 1);
        assert(c.take(i + 1).drop_last() =~= c.take(i));
    }
}

/// A hit before place `i` is among the hits of the part up to `i`.
proof fn lemma_hits_count(q: Seq<char>, c: Seq<char>, i: int, k: int)
    requires
        0 <= i <= c.len(),
        0 <= k < hits(q, c).len(),
        hits(q, c)[k] < i,
    ensures
        hits(q, c.take(i)).len() > k,
    decreases c.len() - i,
{
    if i == c.len() {
        assert(c.take(i) =~= c);
    } else {
        lemma_hits_count(q, c, i + 1, k);
        lemma_hits_prefix(q, c, i + 1);
        assert(c.take(i + 1).drop_last() =~= c.take(i));
        let now = hits(q, c.take(i + 1));
        let before = hits(q, c.take(i));
        if before.len() <= k {
            assert(now[k] == i);
        }
    }
}

/// A candidate fits if and only if the characters of the query stand in it in order.
pub proof fn fits_when_spelled(query: Seq<char>, candidate: Seq<char>)
    ensures
        fitness(query, candidate) is Some <==> exists|at: Seq<int>| #[trigger]
            spells(query_chars(query), candidate, at),
{
    let q = query_chars(query);
    lemma_hits(q, candidate);
    if fitness(query, candidate) is Some {
        if q.len() == 0 {
            assert(spells(q, candidate, Seq::empty()));
        } else {
            assert(spells(q, candidate, hits(q, candidate)));
        }
    }
    if exists|at: Seq<int>| #[trigger] spells(q, candidate, at) {
        let at = choose|at: Seq<int>| #[trigger] spells(q, candidate, at);
        lemma_hits_early(q, candidate, at, q.len() as int);
    }
}

proof fn lemma_hits_of_more(q: Seq<char>, x: char, c: Seq<char>)
    ensures
        hits(q.push(x), c).len() <= q.len() ==> hits(q, c) == hits(q.push(x), c),
        hits(q.push(x), c).len() > q.len() ==> hits(q, c) == hits(q.push(x), c).drop_last()
            && hits(q.push(x), c).len() == q.len() + 1,
    decreases c.len(),
{
    lemma_hits(q, c);
    lemma_hits(q.push(x), c);
    if c.len() > 0 {
        let d = c.drop_last();
        lemma_hits_of_more(q, x, d);
        lemma_hits(q, d);
        lemma_hits(q.push(x), d);
        let g = hits(q.push(x), d);
        if g.len() < q.len() {
            assert(q.push(x)[g.len() as int] == q[g.len() as int]);
        }
        if hits(q.push(x), c).len() > q.len() {
            assert(hits(q, c) =~= hits(q.push(x), c).drop_last());
        }
    } else {
        assert(hits(q, c) =~= hits(q.push(x), c));
    }
}

/// The file name is what follows the last slash of a path, of either kind.
pub proof fn the_name_follows_the_last_slash(c: Seq<char>)
    ensures
        0 <= name_start(c) <= c.len(),
        name_start(c) == 0 || c[name_start(c) - 1] == '/' || c[name_start(c) - 1] == '\\',
        forall|i: int| name_start(c) <= i < c.len() ==> #[trigger] c[i] != '/' && c[i] != '\\',
    decreases c.len(),
{
    if c.len() > 0 && c.last() != '/' && c.last() != '\\' {
        the_name_follows_the_last_slash(c.drop_last());
        let n = name_start(c);
        if n > 0 {
            assert(c.drop_last()[n - 1] == c[n - 1]);
        }
        assert forall|i: int| n <= i < c.len() implies #[trigger] c[i] != '/' && c[i] != '\\' by {
            if i < c.len() - 1 {
                assert(c.drop_last()[i] == c[i]);
            }
        }
    }
}

/// What a place in a candidate is worth by itself: 6 where a word begins there, which is at
/// the very beginning, after a separator, or where small letters change to capitals or back;
/// and 4 where no slash stands at it or after it.
pub open spec fn place_worth(c: Seq<char>, p: int) -> int {
    (if p == 0 || c[p - 1] == '/' || c[p - 1] == '\\' || c[p - 1] == '_' || c[p - 1] == '-' || c[p
        - 1] == '.' || c[p - 1] == ' ' || (lowercase(c[p - 1]) && uppercase(c[p])) || (uppercase(
        c[p - 1],
    ) && lowercase(c[p])) {
        6int
    } else {
        0
    }) + (if forall|i: int| p <= i < c.len() ==> #[trigger] c[i] != '/' && c[i] != '\\' {
        4int
    } else {
        0
    })
}

proof fn lemma_worth_at(c: Seq<char>, at: Seq<int>, k: int)
    requires
        0 <= k < at.len(),
        0 <= at[k] < c.len(),
    ensures
        worth(c, at, k) == 1 + (if k > 0 && at[k - 1] == at[k] - 1 {
            8int
        } else {
            0
        }) + place_worth(c, at[k]),
{
    the_name_follows_the_last_slash(c);
    let n = name_start(c);
    let p = at[k];
    if p < n {
        assert(c[n - 1] == '/' || c[n - 1] == '\\');
    }
}

/// One letter is worth 1 and what its place is worth, at the first place where it stands,
/// large or small; a long candidate is worth one less for every eight characters.
pub proof fn a_letter_is_worth_its_place(x: char, c: Seq<char>, p: int)
    requires
        !is_space(x),
        0 <= p < c.len(),
        same_letter(c[p], x),
        forall|i: int| 0 <= i < p ==> !same_letter(#[trigger] c[i], x),
    ensures
        fitness(seq![x], c) == Some(1 + place_worth(c, p) - c.len() as int / 8),
{
    let q = seq![x];
    reveal(Seq::filter);
    assert(q.drop_last() =~= Seq::empty());
    assert(q.drop_last().filter(|c: char| !is_space(c)) =~= Seq::empty());
    assert(query_chars(q) =~= q);
    lemma_hits(q, c);
    let at = seq![p];
    lemma_hits_early(q, c, at, 1);
    let h = hits(q, c)[0];
    assert(h <= at[0]);
    assert(same_letter(c[h], q[0]));
    assert(h == p) by {
        if h < p {
            assert(!same_letter(c[h], x));
        }
    }
    lemma_worth_at(c, hits(q, c), 0);
    reveal_with_fuel(worth_of_all, 2);
}

/// At `before` stands the letter `a`, at `p` the letter `b`, and none between them.
pub open spec fn comes_next(c: Seq<char>, a: char, b: char, before: int, p: int) -> bool {
    &&& 0 <= before < p < c.len()
    &&& same_letter(c[before], a)
    &&& same_letter(c[p], b)
    &&& forall|i: int| before < i < p ==> !same_letter(#[trigger] c[i], b)
}

/// One letter more in a query is worth 1 and what its place is worth, and 8 more where it
/// stands next to the letter before it. It is looked for after that letter.
pub proof fn a_letter_more_is_worth_its_place(q: Seq<char>, x: char, c: Seq<char>)
    requires
        q.len() > 0,
        !is_space(x),
        forall|i: int| 0 <= i < q.len() ==> !is_space(#[trigger] q[i]),
        fitness(q.push(x), c) is Some,
    ensures
        fitness(q, c) is Some,
        exists|before: int, p: int| #[trigger]
            comes_next(c, q.last(), x, before, p) && fitness(q.push(x), c)->0 - fitness(q, c)->0
                == 1 + place_worth(c, p) + if before == p - 1 {
                8int
            } else {
                0
            },
{
    let more = q.push(x);
    assert forall|i: int| 0 <= i < more.len() implies !is_space(#[trigger] more[i]) by {
        if i < q.len() {
            assert(more[i] == q[i]);
        }
    }
    lemma_query_without_spaces(q);
    lemma_query_without_spaces(more);
    lemma_hits_of_more(q, x, c);
    lemma_hits(q, c);
    lemma_hits(more, c);
    let g = hits(more, c);
    let h = hits(q, c);
    let n = q.len() as int;
    assert(g.len() == n + 1);
    let before = g[n - 1];
    let p = g[n];
    assert(h[n - 1] == before);
    lemma_worth_at(c, g, n);
    lemma_worth_prefix(c, g, h, n);
    assert(same_letter(c[before], q[n - 1]));
    assert(same_letter(c[p], more[n]));
    lemma_hit_is_next(more, c, n);
    assert(comes_next(c, q.last(), x, before, p));
}

proof fn lemma_query_without_spaces(q: Seq<char>)
    requires
        forall|i: int| 0 <= i < q.len() ==> !is_space(#[trigger] q[i]),
    ensures
        query_chars(q) == q,
    decreases q.len(),
{
    reveal(Seq::filter);
    if q.len() > 0 {
        let d = q.drop_last();
        assert forall|i: int| 0 <= i < d.len() implies !is_space(#[trigger] d[i]) by {
            assert(d[i] == q[i]);
        }
        lemma_query_without_spaces(d);
        assert(!is_space(q[q.len() - 1]));
        assert(query_chars(q) =~= q);
    } else {
        assert(query_chars(q) =~= q);
    }
}

/// Between two hits the letter of the second does not stand.
proof fn lemma_hit_is_next(q: Seq<char>, c: Seq<char>, k: int)
    requires
        0 < k < hits(q, c).len(),
    ensures
        forall|i: int|
            hits(q, c)[k - 1] < i < hits(q, c)[k] ==> !same_letter(#[trigger] c[i], q[k]),
    decreases c.len(),
{
    lemma_hits(q, c);
    if c.len() > 0 {
        let d = c.drop_last();
        lemma_hits(q, d);
        let before = hits(q, d);
        let now = hits(q, c);
        if k < before.len() {
            lemma_hit_is_next(q, d, k);
            assert forall|i: int| now[k - 1] < i < now[k] implies !same_letter(
                #[trigger] c[i],
                q[k],
            ) by {
                assert(d[i] == c[i]);
            }
        } else {
            assert(before.len() == k);
            assert(now == before.push(c.len() - 1));
            assert(now[k] == c.len() - 1);
            assert(now[k - 1] == before.last());
            assert(0 <= before[k - 1]);
            lemma_no_hit_after(q, d);
            assert forall|i: int| now[k - 1] < i < now[k] implies !same_letter(
                #[trigger] c[i],
                q[k],
            ) by {
                assert(d[i] == c[i]);
            }
        }
    }
}

/// After the last hit the next letter does not stand.
proof fn lemma_no_hit_after(q: Seq<char>, c: Seq<char>)
    requires
        0 < hits(q, c).len() < q.len(),
    ensures
        forall|i: int|
            hits(q, c).last() < i < c.len() ==> !same_letter(
                #[trigger] c[i],
                q[hits(q, c).len() as int],
            ),
    decreases c.len(),
{
    if c.len() > 0 {
        let d = c.drop_last();
        let before = hits(q, d);
        lemma_hits(q, c);
        assert(hits(q, c)[hits(q, c).len() - 1] >= 0);
        if before.len() == hits(q, c).len() {
            lemma_no_hit_after(q, d);
            assert forall|i: int| hits(q, c).last() < i < c.len() implies !same_letter(
                #[trigger] c[i],
                q[hits(q, c).len() as int],
            ) by {
                if i < d.len() {
                    assert(d[i] == c[i]);
                }
            }
        }
    }
}

/// Spaces in a query count for nothing.
pub proof fn spaces_in_a_query_do_not_count(a: Seq<char>, b: Seq<char>, space: char, c: Seq<char>)
    requires
        is_space(space),
    ensures
        fitness(a + seq![space] + b, c) == fitness(a + b, c),
{
    let pred = |c: char| !is_space(c);
    lemma_filter_adds(a + seq![space], b, pred);
    lemma_filter_adds(a, seq![space], pred);
    lemma_filter_adds(a, b, pred);
    reveal(Seq::filter);
    assert(seq![space].drop_last() =~= Seq::empty());
    assert(seq![space].drop_last().filter(pred) =~= Seq::empty());
    assert(seq![space].filter(pred) =~= Seq::empty());
    assert(a.filter(pred) + Seq::<char>::empty() =~= a.filter(pred));
}

proof fn lemma_filter_adds(a: Seq<char>, b: Seq<char>, pred: spec_fn(char) -> bool)
    ensures
        (a + b).filter(pred) == a.filter(pred) + b.filter(pred),
    decreases b.len(),
{
    reveal(Seq::filter);
    if b.len() == 0 {
        assert(a + b =~= a);
        assert(a.filter(pred) + b.filter(pred) =~= a.filter(pred));
    } else {
        lemma_filter_adds(a, b.drop_last(), pred);
        assert((a + b).drop_last() =~= a + b.drop_last());
        assert((a + b).filter(pred) =~= a.filter(pred) + b.filter(pred));
    }
}

/// Candidate `i` goes before candidate `j`: the fitter one, then by path, then as
/// they came.
pub open spec fn ranks_before(query: Seq<char>, c: Seq<Seq<char>>, i: int, j: int) -> bool {
    let a = fitness(query, c[i])->0;
    let b = fitness(query, c[j])->0;
    let x = path::path_key(c[i]);
    let y = path::path_key(c[j]);
    if a != b {
        a > b
    } else if x != y {
        path::key_before(x, y)
    } else {
        i < j
    }
}

/// `order` lists the candidates that fit, the fittest first.
pub open spec fn is_ranking(query: Seq<char>, c: Seq<Seq<char>>, order: Seq<usize>) -> bool {
    &&& forall|k: int|
        0 <= k < order.len() ==> (#[trigger] order[k]) < c.len() && fitness(
            query,
            c[order[k] as int],
        ) is Some
    &&& forall|i: usize|
        i < c.len() && fitness(query, c[i as int]) is Some ==> #[trigger] order.contains(i)
    &&& forall|j: int, k: int|
        0 <= j < k < order.len() ==> #[trigger] ranks_before(
            query,
            c,
            order[j] as int,
            order[k] as int,
        )
}

/// Candidates with their scores and what their paths are compared by.
struct Ranked {
    query: Ghost<Seq<char>>,
    texts: Ghost<Seq<Seq<char>>>,
    scores: Vec<i32>,
    keys: Vec<path::Key>,
}

impl Contest for Ranked {
    closed spec fn size(&self) -> nat {
        self.texts@.len()
    }

    closed spec fn beats(&self, i: int, j: int) -> bool {
        ranks_before(self.query@, self.texts@, i, j)
    }

    proof fn strict(&self) {
        let c = self.texts@;
        assert forall|i: int, j: int| #[trigger] self.beats(i, j) implies !self.beats(j, i) by {
            path::lemma_key_total(path::path_key(c[i]), path::path_key(c[j]));
        }
        assert forall|i: int, j: int|
            0 <= i < self.size() && 0 <= j < self.size() && i != j implies (#[trigger] self.beats(
            i,
            j,
        ) || self.beats(j, i)) by {
            path::lemma_key_total(path::path_key(c[i]), path::path_key(c[j]));
        }
        assert forall|i: int, j: int, k: int| #[trigger]
            self.beats(i, j) && #[trigger] self.beats(j, k) implies self.beats(i, k) by {
            let x = path::path_key(c[i]);
            let y = path::path_key(c[j]);
            let z = path::path_key(c[k]);
            path::lemma_key_total(x, y);
            path::lemma_key_total(y, z);
            path::lemma_key_total(x, z);
            if path::key_before(x, y) && path::key_before(y, z) {
                path::lemma_key_transitive(x, y, z);
            }
        }
    }

    closed spec fn ready(&self) -> bool {
        &&& self.scores@.len() == self.texts@.len()
        &&& self.keys@.len() == self.texts@.len()
        &&& forall|i: int|
            0 <= i < self.texts@.len() ==> #[trigger] self.scores@[i] == fitness(
                self.query@,
                self.texts@[i],
            )->0
        &&& forall|i: int|
            0 <= i < self.texts@.len() ==> path::key_view((#[trigger] self.keys@[i])@)
                == path::path_key(self.texts@[i])
    }

    fn goes_before(&self, i: usize, j: usize) -> (r: bool) {
        if self.scores[i] != self.scores[j] {
            return self.scores[i] > self.scores[j];
        }
        assert(path::key_view(self.keys@[i as int]@) == path::path_key(self.texts@[i as int]));
        assert(path::key_view(self.keys@[j as int]@) == path::path_key(self.texts@[j as int]));
        if !path::same_key(&self.keys[i], &self.keys[j]) {
            return path::is_key_before(&self.keys[i], &self.keys[j]);
        }
        i < j
    }
}

/// `r` are the `limit` fittest of the candidates (or all that fit), the fittest
/// first.
pub open spec fn best(
    query: Seq<char>,
    c: Seq<Seq<char>>,
    limit: int,
    r: Seq<Seq<char>>,
    order: Seq<usize>,
) -> bool {
    &&& is_ranking(query, c, order)
    &&& r.len() == if order.len() <= limit {
        order.len() as int
    } else {
        limit
    }
    &&& forall|k: int| 0 <= k < r.len() ==> #[trigger] r[k] == c[order[k] as int]
}

/// The `limit` fittest of the candidates, the fittest first.
pub fn rank(query: &str, candidates: &[String], limit: usize) -> (r: Vec<String>)
    requires
        forall|i: int|
            0 <= i < candidates@.len() ==> (#[trigger] candidates@[i])@.len() * 19 <= i32::MAX,
    ensures
        exists|order: Seq<usize>|
            best(query@, views(candidates@), limit as int, views(r@), order),
{
    let ghost c = views(candidates@);
    let n: usize = candidates.len();
    let mut scores: Vec<i32> = Vec::new();
    let mut keys: Vec<path::Key> = Vec::new();
    let mut marked: Vec<bool> = Vec::new();
    let mut i: usize = 0;
    while i < n
        invariant
            i <= n,
            n == candidates@.len(),
            c == views(candidates@),
            forall|i: int|
                0 <= i < candidates@.len() ==> (#[trigger] candidates@[i])@.len() * 19 <= i32::MAX,
            scores@.len() == i,
            keys@.len() == i,
            marked@.len() == i,
            forall|k: int| 0 <= k < i ==> marked@[k] == (fitness(query@, c[k]) is Some),
            forall|k: int|
                0 <= k < i && marked@[k] ==> #[trigger] scores@[k] == fitness(query@, c[k])->0,
            forall|k: int|
                0 <= k < i ==> path::key_view((#[trigger] keys@[k])@) == path::path_key(c[k]),
        decreases n - i,
    {
        let text = candidates[i].as_str();
        match score(query, text) {
            Some(s) => {
                scores.push(s);
                marked.push(true);
            },
            None => {
                scores.push(0);
                marked.push(false);
            },
        }
        keys.push(path::key_of(text));
        i += 1;
    }
    // Only those that fit take part, so that every score means something.
    let mut chosen: Vec<usize> = Vec::new();
    let mut few_scores: Vec<i32> = Vec::new();
    let mut few_keys: Vec<path::Key> = Vec::new();
    let mut few_marks: Vec<bool> = Vec::new();
    let ghost mut few: Seq<Seq<char>> = Seq::empty();
    let mut i: usize = 0;
    while i < n
        invariant
            i <= n,
            n == candidates@.len(),
            c == views(candidates@),
            scores@.len() == n,
            keys@.len() == n,
            marked@.len() == n,
            forall|k: int| 0 <= k < n ==> marked@[k] == (fitness(query@, c[k]) is Some),
            forall|k: int|
                0 <= k < n && marked@[k] ==> #[trigger] scores@[k] == fitness(query@, c[k])->0,
            forall|k: int|
                i <= k < n ==> path::key_view((#[trigger] keys@[k])@) == path::path_key(c[k]),
            chosen@.len() <= i,
            few.len() == chosen@.len(),
            few_scores@.len() == chosen@.len(),
            few_keys@.len() == chosen@.len(),
            few_marks@.len() == chosen@.len(),
            forall|k: int| 0 <= k < chosen@.len() ==> few_marks@[k],
            forall|k: int|
                0 <= k < chosen@.len() ==> (#[trigger] chosen@[k]) < i && marked@[chosen@[k] as int]
                    && few[k] == c[chosen@[k] as int],
            forall|j: int, k: int| 0 <= j < k < chosen@.len() ==> chosen@[j] < chosen@[k],
            forall|k: usize| k < i && marked@[k as int] ==> #[trigger] chosen@.contains(k),
            forall|k: int|
                0 <= k < chosen@.len() ==> #[trigger] few_scores@[k] == fitness(query@, few[k])->0,
            forall|k: int|
                0 <= k < chosen@.len() ==> path::key_view((#[trigger] few_keys@[k])@)
                    == path::path_key(few[k]),
        decreases n - i,
    {
        let ghost before = chosen@;
        if marked[i] {
            chosen.push(i);
            few_scores.push(scores[i]);
            few_marks.push(true);
            let mut key: path::Key = Vec::new();
            std::mem::swap(&mut key, &mut keys[i]);
            few_keys.push(key);
            proof {
                few = few.push(c[i as int]);
                assert forall|k: usize| k < i + 1 && marked@[k as int] implies #[trigger] chosen@.contains(
                    k,
                ) by {
                    if k < i {
                        assert(before.contains(k));
                        let m = choose|m: int| 0 <= m < before.len() && before[m] == k;
                        assert(chosen@[m] == k);
                    } else {
                        assert(chosen@[before.len() as int] == k);
                    }
                }
            }
        }
        i += 1;
    }
    let contest = Ranked {
        query: Ghost(query@),
        texts: Ghost(few),
        scores: few_scores,
        keys: few_keys,
    };
    let order = order::put_in_order(&contest, &few_marks);
    let count: usize = if order.len() <= limit {
        order.len()
    } else {
        limit
    };
    let ghost full = order@.map_values(|k: usize| chosen@[k as int]);
    let ghost on = |i: int| 0 <= i < few_marks@.len() && few_marks@[i];
    let mut out: Vec<String> = Vec::new();
    let mut k: usize = 0;
    while k < count
        invariant
            k <= count <= order@.len(),
            n == candidates@.len(),
            c == views(candidates@),
            full == order@.map_values(|k: usize| chosen@[k as int]),
            forall|j: int| 0 <= j < order@.len() ==> (#[trigger] order@[j]) < chosen@.len(),
            forall|j: int| 0 <= j < chosen@.len() ==> (#[trigger] chosen@[j]) < n,
            out@.len() == k,
            forall|j: int| 0 <= j < k ==> (#[trigger] out@[j])@ == c[full[j] as int],
        decreases count - k,
    {
        let at: usize = chosen[order[k]];
        out.push(candidates[at].clone());
        assert(c[at as int] == candidates@[at as int]@);
        k += 1;
    }
    proof {
        assert forall|j: int| 0 <= j < full.len() implies (#[trigger] full[j]) < c.len() && fitness(
            query@,
            c[full[j] as int],
        ) is Some by {
            assert(order@[j] < chosen@.len());
            assert(chosen@[order@[j] as int] < n);
        }
        assert forall|i: usize| i < c.len() && fitness(query@, c[i as int]) is Some implies #[trigger] full.contains(
            i,
        ) by {
            assert(chosen@.contains(i));
            let m = choose|m: int| 0 <= m < chosen@.len() && chosen@[m] == i;
            assert(on(m));
            assert(order@.contains(m as usize));
            let p = choose|p: int| 0 <= p < order@.len() && order@[p] == m;
            assert(full[p] == i);
        }
        assert forall|a: int, b: int| 0 <= a < b < full.len() implies #[trigger] ranks_before(
            query@,
            c,
            full[a] as int,
            full[b] as int,
        ) by {
            assert(contest.beats(order@[a] as int, order@[b] as int));
            assert(chosen@[order@[a] as int] < n && chosen@[order@[b] as int] < n);
            assert(few[order@[a] as int] == c[full[a] as int]);
            assert(few[order@[b] as int] == c[full[b] as int]);
        }
        assert(is_ranking(query@, c, full));
        assert forall|j: int| 0 <= j < views(out@).len() implies #[trigger] views(out@)[j]
            == c[full[j] as int] by {
            assert(views(out@)[j] == out@[j]@);
        }
        assert(best(query@, c, limit as int, views(out@), full));
    }
    out
}

/// Nothing that fits better is left out: what is listed fits, and a candidate that fits and
/// is not listed is missing because the list is full, of candidates that fit no worse.
pub proof fn rankings_leave_out_only_what_fits_worse(
    query: Seq<char>,
    c: Seq<Seq<char>>,
    limit: int,
    r: Seq<Seq<char>>,
    order: Seq<usize>,
    i: usize,
)
    requires
        0 <= limit,
        best(query, c, limit, r, order),
        i < c.len(),
        fitness(query, c[i as int]) is Some,
    ensures
        forall|k: int| 0 <= k < r.len() ==> fitness(query, #[trigger] r[k]) is Some,
        r.contains(c[i as int]) || (r.len() == limit && forall|k: int|
            0 <= k < r.len() ==> fitness(query, #[trigger] r[k])->0 >= fitness(
                query,
                c[i as int],
            )->0),
{
    assert(order.contains(i));
    let m = choose|m: int| 0 <= m < order.len() && order[m] == i;
    if m < r.len() {
        assert(r[m] == c[i as int]);
    } else {
        assert forall|k: int| 0 <= k < r.len() implies fitness(query, #[trigger] r[k])->0 >= fitness(
            query,
            c[i as int],
        )->0 by {
            assert(ranks_before(query, c, order[k] as int, order[m] as int));
        }
    }
}

/// Candidates are ranked in one order only: the same candidates and query always
/// give the same list.
pub proof fn rankings_are_unique(
    query: Seq<char>,
    c: Seq<Seq<char>>,
    a: Seq<usize>,
    b: Seq<usize>,
)
    requires
        is_ranking(query, c, a),
        is_ranking(query, c, b),
    ensures
        a == b,
{
    let before = |i: int, j: int| ranks_before(query, c, i, j);
    let chosen = |i: int| fitness(query, c[i]) is Some;
    assert forall|i: int, j: int| #[trigger] before(i, j) implies !before(j, i) by {
        path::lemma_key_total(path::path_key(c[i]), path::path_key(c[j]));
    }
    assert forall|j: int, k: int| 0 <= j < k < a.len() implies #[trigger] before(
        a[j] as int,
        a[k] as int,
    ) by {
        assert(ranks_before(query, c, a[j] as int, a[k] as int));
    }
    assert forall|j: int, k: int| 0 <= j < k < b.len() implies #[trigger] before(
        b[j] as int,
        b[k] as int,
    ) by {
        assert(ranks_before(query, c, b[j] as int, b[k] as int));
    }
    assert(order::lists(c.len(), before, chosen, a));
    assert(order::lists(c.len(), before, chosen, b));
    order::lists_are_unique(c.len(), before, chosen, a, b);
}

/// What a candidate is ranked by: how well it fits, and its path.
spec fn rank_key(query: Seq<char>, candidate: Seq<char>) -> (int, Seq<(int, Seq<char>)>) {
    (fitness(query, candidate)->0, path::path_key(candidate))
}

spec fn not_after(a: (int, Seq<(int, Seq<char>)>), b: (int, Seq<(int, Seq<char>)>)) -> bool {
    a.0 > b.0 || (a.0 == b.0 && (a.1 == b.1 || path::key_before(a.1, b.1)))
}

proof fn lemma_not_after()
    ensures
        vstd::relations::total_ordering(
            |a: (int, Seq<(int, Seq<char>)>), b: (int, Seq<(int, Seq<char>)>)| not_after(a, b),
        ),
{
    let leq = |a: (int, Seq<(int, Seq<char>)>), b: (int, Seq<(int, Seq<char>)>)| not_after(a, b);
    assert forall|a: (int, Seq<(int, Seq<char>)>), b: (int, Seq<(int, Seq<char>)>)| #[trigger]
        leq(a, b) && #[trigger] leq(b, a) implies a == b by {
        path::lemma_key_total(a.1, b.1);
    }
    assert forall|a: (int, Seq<(int, Seq<char>)>), b: (int, Seq<(int, Seq<char>)>)|
        (#[trigger] leq(a, b)) || #[trigger] leq(b, a) by {
        path::lemma_key_total(a.1, b.1);
    }
    assert forall|
        a: (int, Seq<(int, Seq<char>)>),
        b: (int, Seq<(int, Seq<char>)>),
        c: (int, Seq<(int, Seq<char>)>),
    | #[trigger] leq(a, b) && #[trigger] leq(b, c) implies leq(a, c) by {
        if path::key_before(a.1, b.1) && path::key_before(b.1, c.1) {
            path::lemma_key_transitive(a.1, b.1, c.1);
        }
    }
    assert(vstd::relations::reflexive(leq));
    assert(vstd::relations::antisymmetric(leq));
    assert(vstd::relations::transitive(leq));
    assert(vstd::relations::strongly_connected(leq));
}

/// The candidates in the order of a ranking.
spec fn ranked(c: Seq<Seq<char>>, order: Seq<usize>) -> Seq<Seq<char>> {
    order.map_values(|i: usize| c[i as int])
}

proof fn lemma_ranked(query: Seq<char>, c: Seq<Seq<char>>, order: Seq<usize>)
    requires
        c.len() <= usize::MAX,
        is_ranking(query, c, order),
    ensures
        ranked(c, order).to_multiset() == c.to_multiset().filter(
            |x: Seq<char>| fitness(query, x) is Some,
        ),
        vstd::relations::sorted_by(
            ranked(c, order).map_values(|x: Seq<char>| rank_key(query, x)),
            |a: (int, Seq<(int, Seq<char>)>), b: (int, Seq<(int, Seq<char>)>)| not_after(a, b),
        ),
{
    let fits = |x: Seq<char>| fitness(query, x) is Some;
    assert(order.no_duplicates()) by {
        assert forall|j: int, k: int|
            0 <= j < order.len() && 0 <= k < order.len() && j != k implies order[j] != order[k] by {
            let (a, b) = if j < k {
                (j, k)
            } else {
                (k, j)
            };
            assert(ranks_before(query, c, order[a] as int, order[b] as int));
        }
    }
    order::lemma_listed(c, fits, order);
    order::lemma_chosen_multiset(c, fits);
    let keys = ranked(c, order).map_values(|x: Seq<char>| rank_key(query, x));
    assert forall|j: int, k: int| 0 <= j < k < keys.len() implies not_after(keys[j], keys[k]) by {
        assert(ranks_before(query, c, order[j] as int, order[k] as int));
    }
}

/// In which order candidates are stored does not matter: their rankings name the same
/// paths, place by place.
pub proof fn rankings_do_not_depend_on_the_order(
    query: Seq<char>,
    c: Seq<Seq<char>>,
    d: Seq<Seq<char>>,
    limit: int,
    r: Seq<Seq<char>>,
    s: Seq<Seq<char>>,
    a: Seq<usize>,
    b: Seq<usize>,
)
    requires
        c.len() <= usize::MAX,
        c.to_multiset() == d.to_multiset(),
        best(query, c, limit, r, a),
        best(query, d, limit, s, b),
    ensures
        r.len() == s.len(),
        forall|k: int| 0 <= k < r.len() ==> path::same_path(#[trigger] r[k], s[k]),
{
    broadcast use vstd::seq_lib::group_to_multiset_ensures;

    let key = |x: Seq<char>| rank_key(query, x);
    let leq = |a: (int, Seq<(int, Seq<char>)>), b: (int, Seq<(int, Seq<char>)>)| not_after(a, b);
    assert(c.len() == c.to_multiset().len());
    assert(d.len() == d.to_multiset().len());
    lemma_ranked(query, c, a);
    lemma_ranked(query, d, b);
    let (x, y) = (ranked(c, a), ranked(d, b));
    order::lemma_made_multiset(x, y, key);
    lemma_not_after();
    vstd::seq_lib::lemma_sorted_unique(x.map_values(key), y.map_values(key), leq);
    assert(x.map_values(key).len() == y.map_values(key).len());
    assert forall|k: int| 0 <= k < r.len() implies path::same_path(#[trigger] r[k], s[k]) by {
        assert(r[k] == x[k] && s[k] == y[k]);
        assert(x.map_values(key)[k] == y.map_values(key)[k]);
        path::lemma_same_key(r[k], s[k]);
    }
}

/// A query without characters fits everything.
pub proof fn empty_query_fits_everything(query: Seq<char>, candidate: Seq<char>)
    requires
        forall|i: int| 0 <= i < query.len() ==> is_space(#[trigger] query[i]),
    ensures
        fitness(query, candidate) == Some(0int),
{
    query.lemma_all_neg_filter_empty(|c: char| !is_space(c));
}

/// A directory that is still to be listed, relative to where the scan began.
pub struct Todo {
    pub dir: String,
    pub depth: usize,
}

/// A directory that is still to be listed.
pub struct Pending {
    pub dir: Seq<char>,
    pub depth: int,
}

impl View for Todo {
    type V = Pending;

    open spec fn view(&self) -> Pending {
        Pending { dir: self.dir@, depth: self.depth as int }
    }
}

pub open spec fn pending_views(v: Seq<Todo>) -> Seq<Pending> {
    v.map_values(|t: Todo| t@)
}

/// A scan for files that has come part of the way.
pub struct Scan {
    /// The files found, relative to where the scan began.
    pub found: Vec<String>,
    /// The directories still to be listed; the last is next.
    pub todo: Vec<Todo>,
    /// As many files as were wanted are there.
    pub full: bool,
    /// How many files are wanted.
    pub limit: usize,
}

/// What a scan has come to.
pub struct Progress {
    pub found: Seq<Seq<char>>,
    pub todo: Seq<Pending>,
    pub full: bool,
}

impl View for Scan {
    type V = Progress;

    open spec fn view(&self) -> Progress {
        Progress { found: views(self.found@), todo: pending_views(self.todo@), full: self.full }
    }
}

/// What a scan has come to after entry `e` of directory `at`: a file is found, a
/// directory is to be listed, and what is hidden or not worth looking into is passed
/// over. Once enough files are there nothing changes any more.
pub open spec fn after_entry(p: Progress, at: Pending, e: Entry, limit: int) -> Progress {
    if p.full || is_hidden(e.name@) {
        p
    } else if e.is_dir {
        if is_heavy(e.name@) {
            p
        } else {
            Progress {
                todo: p.todo.push(
                    Pending { dir: joined_path(at.dir, e.name@), depth: at.depth + 1 },
                ),
                ..p
            }
        }
    } else if e.is_file {
        Progress {
            found: p.found.push(joined_path(at.dir, e.name@)),
            full: p.found.len() + 1 >= limit,
            ..p
        }
    } else {
        p
    }
}

/// What a scan has come to after the entries of a directory.
pub open spec fn after_entries(p: Progress, at: Pending, entries: Seq<Entry>, limit: int) -> Progress
    decreases entries.len(),
{
    if entries.len() == 0 {
        p
    } else {
        after_entry(
            after_entries(p, at, entries.drop_last(), limit),
            at,
            entries.last(),
            limit,
        )
    }
}

/// The directories up to the last that does not lie too deep.
pub open spec fn without_deep(todo: Seq<Pending>) -> Seq<Pending>
    decreases todo.len(),
{
    if todo.len() > 0 && todo.last().depth > MAX_DEPTH {
        without_deep(todo.drop_last())
    } else {
        todo
    }
}

impl Scan {
    /// A scan that has yet to begin; where no file is wanted, it is over.
    pub fn new(limit: usize) -> (r: Self)
        ensures
            r@.found == Seq::<Seq<char>>::empty(),
            r@.todo == seq![Pending { dir: Seq::empty(), depth: 0 }],
            r.full == (limit == 0),
            r.limit == limit,
            within_limit(r@, limit as int),
            keeps_out(r@),
    {
        let mut todo: Vec<Todo> = Vec::new();
        todo.push(Todo { dir: String::new(), depth: 0 });
        let r = Scan { found: Vec::new(), todo, full: limit == 0, limit };
        assert(r@.found =~= Seq::empty());
        assert(r@.todo =~= seq![Pending { dir: Seq::empty(), depth: 0 }]);
        r
    }

    /// The directory to be listed next; none once the scan is over.
    pub fn next_dir(&mut self) -> (r: Option<Todo>)
        ensures
            final(self).limit == old(self).limit,
            final(self).full == old(self).full,
            final(self)@.found == old(self)@.found,
            match r {
                Some(t) => !old(self).full && without_deep(old(self)@.todo).len() > 0 && t@
                    == without_deep(old(self)@.todo).last() && final(self)@.todo == without_deep(
                    old(self)@.todo,
                ).drop_last() && t.depth <= MAX_DEPTH,
                None => if old(self).full {
                    final(self)@.todo == old(self)@.todo
                } else {
                    without_deep(old(self)@.todo).len() == 0 && final(self)@.todo.len() == 0
                },
            },
    {
        if self.full {
            return None;
        }
        loop
            invariant
                self.limit == old(self).limit,
                self.full == old(self).full,
                !self.full,
                self.found@ == old(self).found@,
                without_deep(old(self)@.todo) == without_deep(self@.todo),
            decreases self.todo@.len(),
        {
            let ghost before = self@.todo;
            match self.todo.pop() {
                None => {
                    return None;
                },
                Some(t) => {
                    assert(before.last() == t@);
                    assert(before.drop_last() =~= self@.todo);
                    if t.depth <= MAX_DEPTH {
                        return Some(t);
                    }
                },
            }
        }
    }

    /// Takes the entries of the directory `at`.
    pub fn feed(&mut self, at: &Todo, entries: &Vec<Entry>)
        requires
            at.depth <= MAX_DEPTH,
        ensures
            final(self)@ == after_entries(old(self)@, at@, entries@, old(self).limit as int),
            final(self).limit == old(self).limit,
    {
        let mut i: usize = 0;
        while i < entries.len()
            invariant
                i <= entries@.len(),
                at.depth <= MAX_DEPTH,
                self.limit == old(self).limit,
                self@ == after_entries(
                    old(self)@,
                    at@,
                    entries@.take(i as int),
                    old(self).limit as int,
                ),
            decreases entries@.len() - i,
        {
            let ghost before = self@;
            assert(entries@.take(i + 1).drop_last() =~= entries@.take(i as int));
            let e = &entries[i];
            let name = e.name.as_str();
            if !self.full && !tree::hidden(name) {
                if e.is_dir {
                    if !tree::is_heavy_dir(name) {
                        let dir = path::join(at.dir.as_str(), name);
                        self.todo.push(Todo { dir, depth: at.depth + 1 });
                        assert(self@.todo =~= before.todo.push(
                            Pending { dir: dir@, depth: at.depth + 1 },
                        ));
                    }
                } else if e.is_file {
                    let file = path::join(at.dir.as_str(), name);
                    self.found.push(file);
                    assert(self@.found =~= before.found.push(file@));
                    self.full = self.found.len() >= self.limit;
                }
            }
            assert(self@ == after_entry(before, at@, entries@[i as int], self.limit as int));
            i += 1;
        }
        assert(entries@.take(i as int) =~= entries@);
    }

    /// The files found, all of them, in the order of their paths.
    pub fn finish(&self) -> (r: Vec<String>)
        ensures
            views(r@).to_multiset() == self@.found.to_multiset(),
            exists|order: Seq<usize>| paths_in_order(self@.found, views(r@), order),
    {
        let n: usize = self.found.len();
        let ghost c = self@.found;
        let mut keys: Vec<path::Key> = Vec::new();
        let mut marked: Vec<bool> = Vec::new();
        let mut i: usize = 0;
        while i < n
            invariant
                i <= n,
                n == self.found@.len(),
                c == views(self.found@),
                keys@.len() == i,
                marked@.len() == i,
                forall|k: int| 0 <= k < i ==> marked@[k],
                forall|k: int|
                    0 <= k < i ==> path::key_view((#[trigger] keys@[k])@) == path::path_key(c[k]),
            decreases n - i,
        {
            keys.push(path::key_of(self.found[i].as_str()));
            marked.push(true);
            i += 1;
        }
        let contest = ByPath { texts: Ghost(c), keys };
        let order = order::put_in_order(&contest, &marked);
        let ghost on = |i: int| 0 <= i < marked@.len() && marked@[i];
        let mut out: Vec<String> = Vec::new();
        let mut k: usize = 0;
        while k < order.len()
            invariant
                k <= order@.len(),
                n == self.found@.len(),
                c == views(self.found@),
                forall|j: int| 0 <= j < order@.len() ==> (#[trigger] order@[j]) < n,
                out@.len() == k,
                forall|j: int| 0 <= j < k ==> (#[trigger] out@[j])@ == c[order@[j] as int],
            decreases order@.len() - k,
        {
            out.push(self.found[order[k]].clone());
            k += 1;
        }
        proof {
            assert forall|i: usize| i < c.len() implies #[trigger] order@.contains(i) by {
                assert(on(i as int));
            }
            assert forall|j: int, k: int| 0 <= j < k < order@.len() implies #[trigger] path_before(
                c,
                order@[j] as int,
                order@[k] as int,
            ) by {
                assert(contest.beats(order@[j] as int, order@[k] as int));
            }
            assert(paths_in_order(c, views(out@), order@));
            lemma_all_listed(c, views(out@), order@);
        }
        out
    }
}

/// Path `i` goes before path `j`: by components, then as they came.
pub open spec fn path_before(c: Seq<Seq<char>>, i: int, j: int) -> bool {
    let x = path::path_key(c[i]);
    let y = path::path_key(c[j]);
    if x != y {
        path::key_before(x, y)
    } else {
        i < j
    }
}

/// `r` are the paths `c` in order; `order` says where each came from.
pub open spec fn paths_in_order(c: Seq<Seq<char>>, r: Seq<Seq<char>>, order: Seq<usize>) -> bool {
    &&& forall|k: int| 0 <= k < order.len() ==> (#[trigger] order[k]) < c.len()
    &&& forall|i: usize| i < c.len() ==> #[trigger] order.contains(i)
    &&& forall|j: int, k: int|
        0 <= j < k < order.len() ==> #[trigger] path_before(c, order[j] as int, order[k] as int)
    &&& r.len() == order.len()
    &&& forall|k: int| 0 <= k < r.len() ==> #[trigger] r[k] == c[order[k] as int]
}

proof fn lemma_all_listed(c: Seq<Seq<char>>, r: Seq<Seq<char>>, order: Seq<usize>)
    requires
        c.len() <= usize::MAX,
        paths_in_order(c, r, order),
    ensures
        r.to_multiset() == c.to_multiset(),
{
    broadcast use vstd::multiset::group_multiset_axioms;

    let all = |x: Seq<char>| true;
    assert(order.no_duplicates()) by {
        assert forall|j: int, k: int|
            0 <= j < order.len() && 0 <= k < order.len() && j != k implies order[j] != order[k] by {
            let (a, b) = if j < k {
                (j, k)
            } else {
                (k, j)
            };
            assert(path_before(c, order[a] as int, order[b] as int));
        }
    }
    order::lemma_listed(c, all, order);
    order::lemma_chosen_multiset(c, all);
    assert(r =~= order.map_values(|i: usize| c[i as int]));
    assert(c.to_multiset().filter(all) =~= c.to_multiset());
}

struct ByPath {
    texts: Ghost<Seq<Seq<char>>>,
    keys: Vec<path::Key>,
}

impl Contest for ByPath {
    closed spec fn size(&self) -> nat {
        self.texts@.len()
    }

    closed spec fn beats(&self, i: int, j: int) -> bool {
        path_before(self.texts@, i, j)
    }

    proof fn strict(&self) {
        let c = self.texts@;
        assert forall|i: int, j: int| #[trigger] self.beats(i, j) implies !self.beats(j, i) by {
            path::lemma_key_total(path::path_key(c[i]), path::path_key(c[j]));
        }
        assert forall|i: int, j: int|
            0 <= i < self.size() && 0 <= j < self.size() && i != j implies (#[trigger] self.beats(
            i,
            j,
        ) || self.beats(j, i)) by {
            path::lemma_key_total(path::path_key(c[i]), path::path_key(c[j]));
        }
        assert forall|i: int, j: int, k: int| #[trigger]
            self.beats(i, j) && #[trigger] self.beats(j, k) implies self.beats(i, k) by {
            let x = path::path_key(c[i]);
            let y = path::path_key(c[j]);
            let z = path::path_key(c[k]);
            path::lemma_key_total(x, y);
            path::lemma_key_total(y, z);
            path::lemma_key_total(x, z);
            if path::key_before(x, y) && path::key_before(y, z) {
                path::lemma_key_transitive(x, y, z);
            }
        }
    }

    closed spec fn ready(&self) -> bool {
        &&& self.keys@.len() == self.texts@.len()
        &&& forall|i: int|
            0 <= i < self.texts@.len() ==> path::key_view((#[trigger] self.keys@[i])@)
                == path::path_key(self.texts@[i])
    }

    fn goes_before(&self, i: usize, j: usize) -> (r: bool) {
        assert(path::key_view(self.keys@[i as int]@) == path::path_key(self.texts@[i as int]));
        assert(path::key_view(self.keys@[j as int]@) == path::path_key(self.texts@[j as int]));
        if !path::same_key(&self.keys[i], &self.keys[j]) {
            return path::is_key_before(&self.keys[i], &self.keys[j]);
        }
        i < j
    }
}

/// A name that a directory can list: neither empty nor a drive, with no slash in it.
pub open spec fn is_plain_name(name: Seq<char>) -> bool {
    &&& name.len() > 0
    &&& !(path::has_drive(name) && name.len() == 2)
    &&& forall|i: int| 0 <= i < name.len() ==> !path::is_slash(#[trigger] name[i])
}

/// A name that a scan looks at.
pub open spec fn is_open_name(name: Seq<char>) -> bool {
    is_plain_name(name) && !is_hidden(name)
}

/// A scan may list the directory: it is where the scan begins, or each name on the way to
/// it, its own too, is that of a directory neither hidden nor heavy.
pub open spec fn may_list(at: Pending) -> bool {
    let way = pieces(at.dir, '/');
    if at.dir.len() == 0 {
        at.depth == 0
    } else {
        &&& at.depth == way.len()
        &&& forall|i: int| 0 <= i < way.len() ==> is_open_name(#[trigger] way[i]) && !is_heavy(way[i])
    }
}

/// A scan may find the file: no name on the way to it is hidden, no directory on the way
/// is heavy, and it does not lie too deep.
pub open spec fn may_find(file: Seq<char>) -> bool {
    let way = pieces(file, '/');
    &&& way.len() <= MAX_DEPTH + 1
    &&& forall|i: int| 0 <= i < way.len() ==> is_open_name(#[trigger] way[i])
    &&& forall|i: int| 0 <= i < way.len() - 1 ==> !is_heavy(#[trigger] way[i])
}

/// All that a scan has found, and will look into, it may.
pub open spec fn keeps_out(p: Progress) -> bool {
    &&& forall|k: int| 0 <= k < p.found.len() ==> may_find(#[trigger] p.found[k])
    &&& forall|k: int| 0 <= k < p.todo.len() ==> may_list(#[trigger] p.todo[k])
}

/// The entries have names that a directory can list.
pub open spec fn plain_entries(entries: Seq<Entry>) -> bool {
    forall|k: int| 0 <= k < entries.len() ==> is_plain_name((#[trigger] entries[k]).name@)
}

/// What a scan has come to once it was given `listings`, each the entries of the directory
/// that was next; what comes after the end of the scan counts for nothing.
pub open spec fn after_listings(p: Progress, listings: Seq<Seq<Entry>>, limit: int) -> Progress
    decreases listings.len(),
{
    if listings.len() == 0 {
        p
    } else {
        let before = after_listings(p, listings.drop_last(), limit);
        let todo = without_deep(before.todo);
        if before.full || todo.len() == 0 {
            before
        } else {
            after_entries(
                Progress { todo: todo.drop_last(), ..before },
                todo.last(),
                listings.last(),
                limit,
            )
        }
    }
}

proof fn lemma_way_of_entry(at: Pending, name: Seq<char>)
    requires
        may_list(at),
        is_plain_name(name),
    ensures
        at.dir.len() == 0 ==> pieces(joined_path(at.dir, name), '/') == seq![name],
        at.dir.len() > 0 ==> pieces(joined_path(at.dir, name), '/') == pieces(at.dir, '/').push(
            name,
        ),
{
    let d = at.dir;
    let way = pieces(d, '/');
    assert forall|i: int| 0 <= i < name.len() implies name[i] != '/' by {
        assert(!path::is_slash(name[i]));
    }
    text::lemma_pieces_nonempty(d, '/');
    if d.len() == 0 {
        text::lemma_pieces_append(d, name, '/');
        assert(Seq::<char>::empty() + name =~= name);
        assert(way.drop_last().push(way.last() + name) =~= seq![name]);
    } else {
        let last = way[way.len() - 1];
        assert(is_open_name(last));
        assert(!path::is_slash(d.last())) by {
            if d.last() != '/' {
                assert(last.last() == d.last());
                assert(!path::is_slash(last[last.len() - 1]));
            }
        }
        assert(!(path::has_drive(d) && d.len() == 2)) by {
            if path::has_drive(d) && d.len() == 2 {
                reveal_with_fuel(pieces, 3);
                assert(d.drop_last().drop_last() =~= Seq::empty());
                assert(last =~= d);
            }
        }
        let slashed = d + seq!['/'];
        assert(slashed.drop_last() =~= d);
        assert(pieces(slashed, '/') == way.push(Seq::<char>::empty()));
        text::lemma_pieces_append(slashed, name, '/');
        assert(Seq::<char>::empty() + name =~= name);
        assert(pieces(slashed + name, '/') =~= way.push(name));
    }
}

proof fn lemma_entries_keep_out(p: Progress, at: Pending, entries: Seq<Entry>, limit: int)
    requires
        keeps_out(p),
        may_list(at),
        at.depth <= MAX_DEPTH,
        plain_entries(entries),
    ensures
        keeps_out(after_entries(p, at, entries, limit)),
    decreases entries.len(),
{
    if entries.len() > 0 {
        let some = entries.drop_last();
        let e = entries.last();
        assert forall|k: int| 0 <= k < some.len() implies is_plain_name(
            (#[trigger] some[k]).name@,
        ) by {
            assert(some[k] == entries[k]);
        }
        lemma_entries_keep_out(p, at, some, limit);
        assert(is_plain_name(entries[entries.len() - 1].name@));
        lemma_way_of_entry(at, e.name@);
        let before = after_entries(p, at, some, limit);
        let after = after_entries(p, at, entries, limit);
        let way = pieces(joined_path(at.dir, e.name@), '/');
        assert forall|i: int| 0 <= i < way.len() - 1 implies is_open_name(#[trigger] way[i])
            && !is_heavy(way[i]) by {
            assert(way[i] == pieces(at.dir, '/')[i]);
        }
        assert forall|k: int| 0 <= k < after.found.len() implies may_find(
            #[trigger] after.found[k],
        ) by {
            if k < before.found.len() {
                assert(after.found[k] == before.found[k]);
            }
        }
        assert forall|k: int| 0 <= k < after.todo.len() implies may_list(
            #[trigger] after.todo[k],
        ) by {
            if k < before.todo.len() {
                assert(after.todo[k] == before.todo[k]);
            }
        }
    }
}

proof fn lemma_without_deep(todo: Seq<Pending>)
    ensures
        without_deep(todo).len() <= todo.len(),
        without_deep(todo) == todo.take(without_deep(todo).len() as int),
        without_deep(todo).len() > 0 ==> without_deep(todo).last().depth <= MAX_DEPTH,
    decreases todo.len(),
{
    if todo.len() > 0 && todo.last().depth > MAX_DEPTH {
        lemma_without_deep(todo.drop_last());
        let n = without_deep(todo).len() as int;
        assert(todo.drop_last().take(n) =~= todo.take(n));
    } else {
        assert(todo.take(todo.len() as int) =~= todo);
    }
}

/// A scan goes into nothing hidden and nothing heavy: whatever the directories hold, no
/// file is found that is hidden, that lies in a hidden or a heavy directory at any level,
/// or that lies too deep.
pub proof fn scans_keep_out_of_the_hidden_and_the_heavy(
    p: Progress,
    listings: Seq<Seq<Entry>>,
    limit: int,
)
    requires
        keeps_out(p),
        forall|k: int| 0 <= k < listings.len() ==> plain_entries(#[trigger] listings[k]),
    ensures
        keeps_out(after_listings(p, listings, limit)),
    decreases listings.len(),
{
    if listings.len() > 0 {
        let some = listings.drop_last();
        assert forall|k: int| 0 <= k < some.len() implies plain_entries(#[trigger] some[k]) by {
            assert(some[k] == listings[k]);
        }
        scans_keep_out_of_the_hidden_and_the_heavy(p, some, limit);
        let before = after_listings(p, some, limit);
        let todo = without_deep(before.todo);
        lemma_without_deep(before.todo);
        if !before.full && todo.len() > 0 {
            let next = Progress { todo: todo.drop_last(), ..before };
            assert forall|k: int| 0 <= k < next.todo.len() implies may_list(
                #[trigger] next.todo[k],
            ) by {
                assert(next.todo[k] == before.todo[k]);
            }
            assert(todo.last() == before.todo[todo.len() - 1]);
            assert(plain_entries(listings[listings.len() - 1]));
            lemma_entries_keep_out(next, todo.last(), listings.last(), limit);
        }
    }
}

/// The entry is a file of this name that a scan finds.
pub open spec fn is_found_entry(e: Entry, name: Seq<char>) -> bool {
    e.name@ == name && e.is_file && !e.is_dir && !is_hidden(name)
}

/// The entry is a directory of this name that a scan looks into.
pub open spec fn is_entered_entry(e: Entry, name: Seq<char>) -> bool {
    e.name@ == name && e.is_dir && !is_hidden(name) && !is_heavy(name)
}

/// From directory `at`, `names` lead to a file: each is listed in the directory that those
/// before it lead to, the last one as a file that is not hidden, the others as directories
/// neither hidden nor heavy, and no directory on the way lies too deep. `ls` says what is
/// listed in each directory.
pub open spec fn leads_to_file(
    ls: spec_fn(Seq<char>) -> Seq<Entry>,
    at: Pending,
    names: Seq<Seq<char>>,
) -> bool
    decreases names.len(),
{
    &&& at.depth <= MAX_DEPTH
    &&& names.len() > 0
    &&& if names.len() == 1 {
        exists|i: int|
            0 <= i < ls(at.dir).len() && is_found_entry(#[trigger] ls(at.dir)[i], names[0])
    } else {
        &&& exists|i: int|
            0 <= i < ls(at.dir).len() && is_entered_entry(#[trigger] ls(at.dir)[i], names[0])
        &&& leads_to_file(
            ls,
            Pending { dir: joined_path(at.dir, names[0]), depth: at.depth + 1 },
            names.drop_first(),
        )
    }
}

/// The path that `names` lead to from `dir`.
pub open spec fn way(dir: Seq<char>, names: Seq<Seq<char>>) -> Seq<char>
    decreases names.len(),
{
    if names.len() == 0 {
        dir
    } else {
        way(joined_path(dir, names[0]), names.drop_first())
    }
}

/// The file is found, or is still to be come to from a directory that is to be listed.
pub open spec fn in_sight(ls: spec_fn(Seq<char>) -> Seq<Entry>, p: Progress, file: Seq<char>) -> bool {
    ||| p.found.contains(file)
    ||| exists|k: int, names: Seq<Seq<char>>|
        0 <= k < p.todo.len() && #[trigger] leads_to_file(ls, p.todo[k], names) && way(
            p.todo[k].dir,
            names,
        ) == file
}

/// `listings` are what `ls` says of the directories that are next.
pub open spec fn are_listings(
    ls: spec_fn(Seq<char>) -> Seq<Entry>,
    p: Progress,
    listings: Seq<Seq<Entry>>,
    limit: int,
) -> bool {
    forall|k: int|
        0 <= k < listings.len() ==> {
            let todo = without_deep(after_listings(p, listings.take(k), limit).todo);
            todo.len() > 0 ==> #[trigger] listings[k] == ls(todo.last().dir)
        }
}

/// Entries that do not fill a scan are all taken: every file that is not hidden is found,
/// every directory that is neither hidden nor heavy is to be listed, and nothing that was
/// found or was to be listed before is lost.
pub proof fn entries_are_all_taken(p: Progress, at: Pending, entries: Seq<Entry>, limit: int)
    requires
        !after_entries(p, at, entries, limit).full,
    ensures
        !p.full,
        forall|f: Seq<char>|
            p.found.contains(f) ==> #[trigger] after_entries(p, at, entries, limit).found.contains(f),
        forall|t: Pending|
            p.todo.contains(t) ==> #[trigger] after_entries(p, at, entries, limit).todo.contains(t),
        forall|i: int|
            0 <= i < entries.len() && is_found_entry(#[trigger] entries[i], entries[i].name@)
                ==> after_entries(p, at, entries, limit).found.contains(
                joined_path(at.dir, entries[i].name@),
            ),
        forall|i: int|
            0 <= i < entries.len() && is_entered_entry(#[trigger] entries[i], entries[i].name@)
                ==> after_entries(p, at, entries, limit).todo.contains(
                Pending { dir: joined_path(at.dir, entries[i].name@), depth: at.depth + 1 },
            ),
    decreases entries.len(),
{
    if entries.len() > 0 {
        let some = entries.drop_last();
        let e = entries.last();
        let before = after_entries(p, at, some, limit);
        let after = after_entries(p, at, entries, limit);
        assert(!before.full);
        entries_are_all_taken(p, at, some, limit);
        assert forall|f: Seq<char>| before.found.contains(f) implies after.found.contains(f) by {
            let k = choose|k: int| 0 <= k < before.found.len() && before.found[k] == f;
            assert(after.found[k] == f);
        }
        assert forall|t: Pending| before.todo.contains(t) implies after.todo.contains(t) by {
            let k = choose|k: int| 0 <= k < before.todo.len() && before.todo[k] == t;
            assert(after.todo[k] == t);
        }
        assert forall|i: int|
            0 <= i < entries.len() && is_found_entry(
                #[trigger] entries[i],
                entries[i].name@,
            ) implies after.found.contains(joined_path(at.dir, entries[i].name@)) by {
            if i < some.len() {
                assert(some[i] == entries[i]);
                assert(before.found.contains(joined_path(at.dir, some[i].name@)));
            } else {
                assert(after.found.last() == joined_path(at.dir, e.name@));
            }
        }
        assert forall|i: int|
            0 <= i < entries.len() && is_entered_entry(
                #[trigger] entries[i],
                entries[i].name@,
            ) implies after.todo.contains(
            Pending { dir: joined_path(at.dir, entries[i].name@), depth: at.depth + 1 },
        ) by {
            let t = Pending { dir: joined_path(at.dir, entries[i].name@), depth: at.depth + 1 };
            if i < some.len() {
                assert(some[i] == entries[i]);
                assert(before.todo.contains(t));
            } else {
                assert(after.todo.last() == t);
            }
        }
    }
}

/// Listing the next directory loses no file out of sight.
proof fn lemma_step_keeps_in_sight(
    ls: spec_fn(Seq<char>) -> Seq<Entry>,
    p: Progress,
    limit: int,
    file: Seq<char>,
)
    requires
        in_sight(ls, p, file),
        without_deep(p.todo).len() > 0,
        !after_entries(
            Progress { todo: without_deep(p.todo).drop_last(), ..p },
            without_deep(p.todo).last(),
            ls(without_deep(p.todo).last().dir),
            limit,
        ).full,
    ensures
        in_sight(
            ls,
            after_entries(
                Progress { todo: without_deep(p.todo).drop_last(), ..p },
                without_deep(p.todo).last(),
                ls(without_deep(p.todo).last().dir),
                limit,
            ),
            file,
        ),
{
    let todo = without_deep(p.todo);
    let at = todo.last();
    let next = Progress { todo: todo.drop_last(), ..p };
    let entries = ls(at.dir);
    let after = after_entries(next, at, entries, limit);
    entries_are_all_taken(next, at, entries, limit);
    lemma_without_deep(p.todo);
    if !p.found.contains(file) {
        let (k, names) = choose|k: int, names: Seq<Seq<char>>|
            0 <= k < p.todo.len() && #[trigger] leads_to_file(ls, p.todo[k], names) && way(
                p.todo[k].dir,
                names,
            ) == file;
        lemma_deep_are_dropped(p.todo);
        assert(k < todo.len());
        assert(todo[k] == p.todo[k]);
        if k < todo.len() - 1 {
            assert(next.todo[k] == p.todo[k]);
            assert(next.todo.contains(p.todo[k]));
            assert(after.todo.contains(p.todo[k]));
            let m = choose|m: int| 0 <= m < after.todo.len() && after.todo[m] == p.todo[k];
            assert(leads_to_file(ls, after.todo[m], names));
        } else if names.len() == 1 {
            let i = choose|i: int|
                0 <= i < entries.len() && is_found_entry(#[trigger] entries[i], names[0]);
            assert(is_found_entry(entries[i], entries[i].name@));
            assert(after.found.contains(joined_path(at.dir, names[0])));
            reveal_with_fuel(way, 2);
        } else {
            let i = choose|i: int|
                0 <= i < entries.len() && is_entered_entry(#[trigger] entries[i], names[0]);
            assert(is_entered_entry(entries[i], entries[i].name@));
            let t = Pending { dir: joined_path(at.dir, names[0]), depth: at.depth + 1 };
            assert(after.todo.contains(t));
            let m = choose|m: int| 0 <= m < after.todo.len() && after.todo[m] == t;
            assert(leads_to_file(ls, after.todo[m], names.drop_first()));
            assert(way(after.todo[m].dir, names.drop_first()) == file);
        }
    } else {
        assert(next.found.contains(file));
        assert(after.found.contains(file));
    }
}

proof fn lemma_deep_are_dropped(todo: Seq<Pending>)
    ensures
        forall|k: int|
            0 <= k < todo.len() && (#[trigger] todo[k]).depth <= MAX_DEPTH ==> k < without_deep(
                todo,
            ).len(),
    decreases todo.len(),
{
    if todo.len() > 0 && todo.last().depth > MAX_DEPTH {
        lemma_deep_are_dropped(todo.drop_last());
        assert forall|k: int|
            0 <= k < todo.len() && (#[trigger] todo[k]).depth <= MAX_DEPTH implies k < without_deep(
            todo,
        ).len() by {
            assert(todo.drop_last()[k] == todo[k]);
        }
    }
}

/// While a scan goes on, every file that can be come to is found or in sight.
pub proof fn scans_lose_nothing_out_of_sight(
    ls: spec_fn(Seq<char>) -> Seq<Entry>,
    p: Progress,
    listings: Seq<Seq<Entry>>,
    limit: int,
    file: Seq<char>,
)
    requires
        in_sight(ls, p, file),
        are_listings(ls, p, listings, limit),
        !after_listings(p, listings, limit).full,
    ensures
        in_sight(ls, after_listings(p, listings, limit), file),
    decreases listings.len(),
{
    if listings.len() > 0 {
        let some = listings.drop_last();
        let before = after_listings(p, some, limit);
        let todo = without_deep(before.todo);
        assert(some =~= listings.take(listings.len() - 1));
        assert forall|k: int| 0 <= k < some.len() implies ({
            let t = without_deep(after_listings(p, some.take(k), limit).todo);
            t.len() > 0 ==> #[trigger] some[k] == ls(t.last().dir)
        }) by {
            assert(some[k] == listings[k]);
            assert(some.take(k) =~= listings.take(k));
        }
        if !before.full && todo.len() > 0 {
            entries_are_all_taken(
                Progress { todo: todo.drop_last(), ..before },
                todo.last(),
                listings.last(),
                limit,
            );
            assert(listings[listings.len() - 1] == ls(todo.last().dir));
            scans_lose_nothing_out_of_sight(ls, p, some, limit, file);
            lemma_step_keeps_in_sight(ls, before, limit, file);
        } else {
            scans_lose_nothing_out_of_sight(ls, p, some, limit, file);
        }
    }
}

/// A scan finds everything: once nothing is left to be listed and no limit was met, every
/// file that can be come to is found, in whichever directory it lies.
pub proof fn scans_find_every_file(
    ls: spec_fn(Seq<char>) -> Seq<Entry>,
    p: Progress,
    listings: Seq<Seq<Entry>>,
    limit: int,
    names: Seq<Seq<char>>,
)
    requires
        p.todo == seq![Pending { dir: Seq::empty(), depth: 0 }],
        are_listings(ls, p, listings, limit),
        !after_listings(p, listings, limit).full,
        without_deep(after_listings(p, listings, limit).todo).len() == 0,
        leads_to_file(ls, Pending { dir: Seq::empty(), depth: 0 }, names),
    ensures
        after_listings(p, listings, limit).found.contains(way(Seq::empty(), names)),
{
    let file = way(Seq::empty(), names);
    assert(leads_to_file(ls, p.todo[0], names));
    scans_lose_nothing_out_of_sight(ls, p, listings, limit, file);
    lemma_deep_are_dropped(after_listings(p, listings, limit).todo);
}

/// No more files are found than are wanted, and there is room for one more as long as the
/// scan goes on.
pub open spec fn within_limit(p: Progress, limit: int) -> bool {
    p.found.len() <= limit && (!p.full ==> p.found.len() < limit)
}

proof fn lemma_entries_keep_to_the_limit(
    p: Progress,
    at: Pending,
    entries: Seq<Entry>,
    limit: int,
)
    requires
        within_limit(p, limit),
    ensures
        within_limit(after_entries(p, at, entries, limit), limit),
    decreases entries.len(),
{
    if entries.len() > 0 {
        lemma_entries_keep_to_the_limit(p, at, entries.drop_last(), limit);
    }
}

/// A scan never finds more files than are wanted.
pub proof fn scans_keep_to_the_limit(p: Progress, listings: Seq<Seq<Entry>>, limit: int)
    requires
        within_limit(p, limit),
    ensures
        within_limit(after_listings(p, listings, limit), limit),
    decreases listings.len(),
{
    if listings.len() > 0 {
        scans_keep_to_the_limit(p, listings.drop_last(), limit);
        let before = after_listings(p, listings.drop_last(), limit);
        let todo = without_deep(before.todo);
        if !before.full && todo.len() > 0 {
            lemma_entries_keep_to_the_limit(
                Progress { todo: todo.drop_last(), ..before },
                todo.last(),
                listings.last(),
                limit,
            );
        }
    }
}

} // verus!
