//! Background marks in the editor: lines with errors or warnings, and the pair
//! of brackets that the cursor is at.

use vstd::prelude::*;
use vstd::string::*;

use crate::offset;
use crate::offset::{bytes, floor_boundary, line_end, line_start};

verus! {

pub open spec fn is_open(c: u8) -> bool {
    c == 0x28 || c == 0x5b || c == 0x7b
}

pub open spec fn is_close(c: u8) -> bool {
    c == 0x29 || c == 0x5d || c == 0x7d
}

/// The opening bracket that the closing bracket `c` belongs to.
pub open spec fn opener_of(c: u8) -> u8 {
    if c == 0x29 {
        0x28
    } else if c == 0x5d {
        0x5b
    } else {
        0x7b
    }
}

/// Byte `i` of `b` is there and is `c`.
pub open spec fn byte_is(b: Seq<u8>, i: int, c: u8) -> bool {
    0 <= i < b.len() && b[i] == c
}

/// The first `c` at or after `i`, or the end.
pub open spec fn seek(b: Seq<u8>, i: int, c: u8) -> int
    decreases b.len() - i,
{
    if i >= b.len() || b[i] == c {
        i
    } else {
        seek(b, i + 1, c)
    }
}

/// Where a block comment ends, `depth` of which are open at `i`. They nest.
pub open spec fn after_block(b: Seq<u8>, i: int, depth: nat) -> int
    decreases b.len() - i,
{
    if i >= b.len() || depth == 0 {
        i
    } else if byte_is(b, i, 0x2f) && byte_is(b, i + 1, 0x2a) {
        after_block(b, i + 2, depth + 1)
    } else if byte_is(b, i, 0x2a) && byte_is(b, i + 1, 0x2f) {
        after_block(b, i + 2, (depth - 1) as nat)
    } else {
        after_block(b, i + 1, depth)
    }
}

/// Just after the closing quote of a string that is open at `i`; a backslash
/// takes the byte after it along.
pub open spec fn after_string(b: Seq<u8>, i: int) -> int
    decreases b.len() - i,
{
    if i >= b.len() {
        b.len() as int
    } else if b[i] == 0x5c {
        if i + 1 < b.len() {
            after_string(b, i + 2)
        } else {
            b.len() as int
        }
    } else if b[i] == 0x22 {
        i + 1
    } else {
        after_string(b, i + 1)
    }
}

/// The first byte at or after `i` that is no backtick, or the end.
pub open spec fn after_ticks(b: Seq<u8>, i: int) -> int
    decreases b.len() - i,
{
    if byte_is(b, i, 0x60) {
        after_ticks(b, i + 1)
    } else {
        i
    }
}

/// Just after the first `n` backticks in a row at or after `i`, `left` of which are
/// still to come in the row that `i` stands in; the end where there are none.
pub open spec fn after_row(b: Seq<u8>, i: int, left: int, n: int) -> int
    decreases b.len() - i,
{
    if i >= b.len() || left <= 0 {
        i
    } else if b[i] == 0x60 {
        after_row(b, i + 1, left - 1, n)
    } else {
        after_row(b, i + 1, n, n)
    }
}

/// Just after the raw string that begins at `i`. It ends where as many backticks
/// stand in a row as it began with; two alone are an empty one.
pub open spec fn after_raw(b: Seq<u8>, i: int) -> int {
    let inside = after_ticks(b, i);
    let n = inside - i;
    if n == 2 {
        inside
    } else {
        after_row(b, inside, n, n)
    }
}

/// Where the piece of source that begins at `i` ends: a line comment up to its
/// newline, a block comment, a string, a raw string, or a single byte.
pub open spec fn piece_end(b: Seq<u8>, i: int) -> int {
    if byte_is(b, i, 0x2f) && byte_is(b, i + 1, 0x2f) {
        seek(b, i + 2, 0x0a)
    } else if byte_is(b, i, 0x2f) && byte_is(b, i + 1, 0x2a) {
        after_block(b, i + 2, 1)
    } else if byte_is(b, i, 0x22) {
        after_string(b, i + 1)
    } else if byte_is(b, i, 0x60) {
        after_raw(b, i)
    } else {
        i + 1
    }
}

proof fn lemma_after_ticks(b: Seq<u8>, i: int)
    ensures
        after_ticks(b, i) >= i,
        i <= b.len() ==> after_ticks(b, i) <= b.len(),
    decreases b.len() - i,
{
    if byte_is(b, i, 0x60) {
        lemma_after_ticks(b, i + 1);
    }
}

proof fn lemma_after_row(b: Seq<u8>, i: int, left: int, n: int)
    ensures
        after_row(b, i, left, n) >= i,
        i <= b.len() ==> after_row(b, i, left, n) <= b.len(),
    decreases b.len() - i,
{
    if i < b.len() && left > 0 {
        if b[i] == 0x60 {
            lemma_after_row(b, i + 1, left - 1, n);
        } else {
            lemma_after_row(b, i + 1, n, n);
        }
    }
}

proof fn lemma_seek(b: Seq<u8>, i: int, c: u8)
    ensures
        seek(b, i, c) >= i,
        i <= b.len() ==> seek(b, i, c) <= b.len(),
    decreases b.len() - i,
{
    if !(i >= b.len() || b[i] == c) {
        lemma_seek(b, i + 1, c);
    }
}

proof fn lemma_after_block(b: Seq<u8>, i: int, depth: nat)
    ensures
        after_block(b, i, depth) >= i,
        i <= b.len() ==> after_block(b, i, depth) <= b.len(),
    decreases b.len() - i,
{
    if !(i >= b.len() || depth == 0) {
        if byte_is(b, i, 0x2f) && byte_is(b, i + 1, 0x2a) {
            lemma_after_block(b, i + 2, depth + 1);
        } else if byte_is(b, i, 0x2a) && byte_is(b, i + 1, 0x2f) {
            lemma_after_block(b, i + 2, (depth - 1) as nat);
        } else {
            lemma_after_block(b, i + 1, depth);
        }
    }
}

proof fn lemma_after_string(b: Seq<u8>, i: int)
    requires
        0 <= i <= b.len(),
    ensures
        i <= after_string(b, i) <= b.len(),
    decreases b.len() - i,
{
    if i < b.len() {
        if b[i] == 0x5c {
            if i + 1 < b.len() {
                lemma_after_string(b, i + 2);
            }
        } else if b[i] != 0x22 {
            lemma_after_string(b, i + 1);
        }
    }
}

/// A piece of source is never empty.
pub proof fn lemma_piece_end(b: Seq<u8>, i: int)
    requires
        0 <= i < b.len(),
    ensures
        i < piece_end(b, i) <= b.len(),
{
    lemma_seek(b, i + 2, 0x0a);
    lemma_after_ticks(b, i + 1);
    lemma_after_row(b, after_ticks(b, i), after_ticks(b, i) - i, after_ticks(b, i) - i);
    lemma_after_block(b, i + 2, 1);
    lemma_after_string(b, i + 1);
}

/// The positions of the brackets at or after `i` that are code: not those in
/// comments, strings and raw strings. `i` is where a piece begins.
pub open spec fn code_brackets(b: Seq<u8>, i: int) -> Seq<int>
    decreases b.len() - i,
{
    if i < 0 || i >= b.len() {
        Seq::empty()
    } else if is_open(b[i]) || is_close(b[i]) {
        seq![i] + code_brackets(b, i + 1)
    } else {
        proof {
            lemma_piece_end(b, i);
        }
        code_brackets(b, piece_end(b, i))
    }
}

/// What is known after some brackets: those still open, innermost last, and the
/// pairs found, each with its two positions and how many brackets it stands in.
pub struct Matching {
    pub open: Seq<int>,
    pub pairs: Seq<(int, int, int)>,
}

/// Takes the brackets at `at` in order. A closing bracket ends the innermost
/// open one; they are a pair if they are of one kind.
pub open spec fn matching(b: Seq<u8>, at: Seq<int>) -> Matching
    decreases at.len(),
{
    if at.len() == 0 {
        Matching { open: Seq::empty(), pairs: Seq::empty() }
    } else {
        let m = matching(b, at.drop_last());
        let p = at.last();
        if is_open(b[p]) {
            Matching { open: m.open.push(p), pairs: m.pairs }
        } else if m.open.len() == 0 {
            m
        } else {
            let rest = m.open.drop_last();
            let o = m.open.last();
            Matching {
                open: rest,
                pairs: if b[o] == opener_of(b[p]) {
                    m.pairs.push((o, p, rest.len() as int))
                } else {
                    m.pairs
                },
            }
        }
    }
}

/// The bracket pairs of a source, in the order in which they close.
pub open spec fn pairs_of(b: Seq<u8>) -> Seq<(int, int, int)> {
    matching(b, code_brackets(b, 0)).pairs
}

/// Machine integers as mathematical ones.
pub open spec fn widen(v: Seq<(usize, usize, usize)>) -> Seq<(int, int, int)> {
    v.map_values(|p: (usize, usize, usize)| (p.0 as int, p.1 as int, p.2 as int))
}

fn seek_byte(b: &[u8], from: usize, c: u8) -> (r: usize)
    requires
        from <= b@.len(),
    ensures
        r == seek(b@, from as int, c),
        from <= r <= b@.len(),
{
    let mut i: usize = from;
    while i < b.len() && b[i] != c
        invariant
            from <= i <= b@.len(),
            seek(b@, from as int, c) == seek(b@, i as int, c),
        decreases b@.len() - i,
    {
        i += 1;
    }
    i
}

fn skip_block(b: &[u8], from: usize) -> (r: usize)
    requires
        from <= b@.len(),
    ensures
        r == after_block(b@, from as int, 1),
        from <= r <= b@.len(),
{
    let mut i: usize = from;
    let mut depth: usize = 1;
    let n: usize = b.len();
    while i < n && depth > 0
        invariant
            from <= i <= n,
            n == b@.len(),
            depth <= i - from + 1,
            after_block(b@, from as int, 1) == after_block(b@, i as int, depth as nat),
        decreases n - i,
    {
        if b[i] == 0x2f && i + 1 < n && b[i + 1] == 0x2a {
            depth += 1;
            i += 2;
        } else if b[i] == 0x2a && i + 1 < n && b[i + 1] == 0x2f {
            depth -= 1;
            i += 2;
        } else {
            i += 1;
        }
    }
    i
}

fn skip_string(b: &[u8], from: usize) -> (r: usize)
    requires
        from <= b@.len(),
    ensures
        r == after_string(b@, from as int),
        from <= r <= b@.len(),
{
    let mut i: usize = from;
    let n: usize = b.len();
    while i < n
        invariant
            from <= i <= n,
            n == b@.len(),
            after_string(b@, from as int) == after_string(b@, i as int),
        decreases n - i,
    {
        if b[i] == 0x5c {
            if i + 1 < n {
                i += 2;
            } else {
                return n;
            }
        } else if b[i] == 0x22 {
            return i + 1;
        } else {
            i += 1;
        }
    }
    i
}

fn skip_raw(b: &[u8], from: usize) -> (r: usize)
    requires
        from < b@.len(),
        b@[from as int] == 0x60,
    ensures
        r == after_raw(b@, from as int),
        from < r <= b@.len(),
{
    let n: usize = b.len();
    let mut i: usize = from + 1;
    while i < n && b[i] == 0x60
        invariant
            from < i <= n,
            n == b@.len(),
            after_ticks(b@, from as int) == after_ticks(b@, i as int),
        decreases n - i,
    {
        i += 1;
    }
    let ticks: usize = i - from;
    if ticks == 2 {
        return i;
    }
    let mut left: usize = ticks;
    while i < n && left > 0
        invariant
            from < i <= n,
            n == b@.len(),
            left <= ticks,
            after_raw(b@, from as int) == after_row(b@, i as int, left as int, ticks as int),
        decreases n - i,
    {
        if b[i] == 0x60 {
            left -= 1;
        } else {
            left = ticks;
        }
        i += 1;
    }
    i
}

/// The bracket pairs of a source: the position of each opening and closing
/// bracket, and how many brackets the pair stands in.
pub fn bracket_pairs(source: &str) -> (r: Vec<(usize, usize, usize)>)
    ensures
        widen(r@) == pairs_of(bytes(source@)),
{
    let b = source.as_bytes();
    let n: usize = b.len();
    let mut stack: Vec<usize> = Vec::new();
    let mut pairs: Vec<(usize, usize, usize)> = Vec::new();
    let mut i: usize = 0;
    let ghost mut seen: Seq<int> = Seq::empty();
    let ghost all = code_brackets(b@, 0);
    assert(seen + code_brackets(b@, 0) =~= all);
    assert(matching(b@, seen).pairs =~= widen(pairs@));
    assert(matching(b@, seen).open =~= stack@.map_values(|x: usize| x as int));
    while i < n
        invariant
            i <= n,
            n == b@.len(),
            all == code_brackets(b@, 0),
            seen + code_brackets(b@, i as int) == all,
            matching(b@, seen).pairs == widen(pairs@),
            matching(b@, seen).open == stack@.map_values(|x: usize| x as int),
            forall|k: int| 0 <= k < stack@.len() ==> stack@[k] < n,
        decreases n - i,
    {
        let c: u8 = b[i];
        if c == 0x28 || c == 0x5b || c == 0x7b {
            let ghost before = seen;
            stack.push(i);
            proof {
                seen = seen.push(i as int);
                assert(seen.drop_last() =~= before);
                assert(seen + code_brackets(b@, i + 1) =~= before + code_brackets(b@, i as int));
                assert(matching(b@, seen).open =~= stack@.map_values(|x: usize| x as int));
            }
            i += 1;
        } else if c == 0x29 || c == 0x5d || c == 0x7d {
            let ghost before = seen;
            let ghost old_stack = stack@;
            let ghost old_pairs = pairs@;
            let want: u8 = if c == 0x29 {
                0x28
            } else if c == 0x5d {
                0x5b
            } else {
                0x7b
            };
            proof {
                seen = seen.push(i as int);
                assert(seen.drop_last() =~= before);
                assert(seen + code_brackets(b@, i + 1) =~= before + code_brackets(b@, i as int));
            }
            if let Some(o) = stack.pop() {
                assert(matching(b@, before).open.last() == o as int);
                assert(matching(b@, before).open.drop_last() =~= stack@.map_values(
                    |x: usize| x as int,
                ));
                if b[o] == want {
                    let depth: usize = stack.len();
                    pairs.push((o, i, depth));
                    assert(widen(pairs@) =~= widen(old_pairs).push(
                        (o as int, i as int, depth as int),
                    ));
                }
            } else {
                assert(matching(b@, before).open.len() == 0);
            }
            i += 1;
        } else {
            proof {
                lemma_piece_end(b@, i as int);
            }
            let next: usize = if c == 0x2f && i + 1 < n && b[i + 1] == 0x2f {
                seek_byte(b, i + 2, 0x0a)
            } else if c == 0x2f && i + 1 < n && b[i + 1] == 0x2a {
                skip_block(b, i + 2)
            } else if c == 0x22 {
                skip_string(b, i + 1)
            } else if c == 0x60 {
                skip_raw(b, i)
            } else {
                i + 1
            };
            assert(code_brackets(b@, next as int) == code_brackets(b@, i as int));
            i = next;
        }
    }
    assert(code_brackets(b@, i as int) =~= Seq::empty());
    assert(seen =~= all);
    pairs
}

/// The brackets of a source come in order, and all are brackets.
proof fn lemma_code_brackets(b: Seq<u8>, i: int)
    requires
        0 <= i,
    ensures
        forall|k: int|
            0 <= k < code_brackets(b, i).len() ==> {
                let p = #[trigger] code_brackets(b, i)[k];
                i <= p < b.len() && (is_open(b[p]) || is_close(b[p]))
            },
        forall|j: int, k: int|
            0 <= j < k < code_brackets(b, i).len() ==> code_brackets(b, i)[j] < code_brackets(
                b,
                i,
            )[k],
    decreases b.len() - i,
{
    if i < b.len() {
        if is_open(b[i]) || is_close(b[i]) {
            lemma_code_brackets(b, i + 1);
            let rest = code_brackets(b, i + 1);
            let all = code_brackets(b, i);
            assert(all == seq![i] + rest);
            assert forall|k: int| 0 <= k < all.len() implies i <= #[trigger] all[k] < b.len() && (
            is_open(b[all[k]]) || is_close(b[all[k]])) by {
                if k > 0 {
                    assert(all[k] == rest[k - 1]);
                }
            }
            assert forall|j: int, k: int| 0 <= j < k < all.len() implies all[j] < all[k] by {
                assert(all[k] == rest[k - 1]);
                if j > 0 {
                    assert(all[j] == rest[j - 1]);
                }
            }
        } else {
            lemma_piece_end(b, i);
            lemma_code_brackets(b, piece_end(b, i));
            assert(code_brackets(b, i) == code_brackets(b, piece_end(b, i)));
        }
    } else {
        assert(code_brackets(b, i).len() == 0);
    }
}

/// Two pairs lie apart, or the first lies inside the second and deeper.
pub open spec fn apart_or_inside(p: (int, int, int), q: (int, int, int)) -> bool {
    ||| p.1 < q.0
    ||| q.1 < p.0
    ||| q.0 < p.0 && p.1 < q.1 && q.2 < p.2
}

/// The brackets still open are opening ones in order, none after `last`.
spec fn open_in_order(b: Seq<u8>, open: Seq<int>, last: int) -> bool {
    &&& forall|k: int|
        0 <= k < open.len() ==> 0 <= #[trigger] open[k] < b.len() && is_open(b[open[k]]) && open[k]
            <= last
    &&& forall|j: int, k: int| 0 <= j < k < open.len() ==> open[j] < open[k]
}

/// Each pair is of one kind and ends no later than `last`.
spec fn pairs_in_text(b: Seq<u8>, pairs: Seq<(int, int, int)>, last: int) -> bool {
    forall|k: int|
        0 <= k < pairs.len() ==> {
            let p = #[trigger] pairs[k];
            &&& 0 <= p.0 < p.1 < b.len()
            &&& is_open(b[p.0]) && is_close(b[p.1]) && opener_of(b[p.1]) == b[p.0]
            &&& p.1 <= last
            &&& 0 <= p.2
        }
}

/// A bracket still open stands after a pair, or around it.
spec fn open_around_pairs(open: Seq<int>, pairs: Seq<(int, int, int)>) -> bool {
    forall|k: int, o: int|
        0 <= k < pairs.len() && 0 <= o < open.len() ==> {
            let p = #[trigger] pairs[k];
            let s = #[trigger] open[o];
            s > p.1 || (s < p.0 && o < p.2)
        }
}

/// Pairs come in the order in which they close, apart or one inside the other.
spec fn pairs_in_order(pairs: Seq<(int, int, int)>) -> bool {
    forall|j: int, k: int|
        0 <= j < k < pairs.len() ==> #[trigger] apart_or_inside(pairs[j], pairs[k]) && pairs[j].1
            < pairs[k].1
}

/// What holds of the pairs found so far and of the brackets still open.
spec fn matched(b: Seq<u8>, at: Seq<int>) -> bool {
    let m = matching(b, at);
    &&& at.len() == 0 ==> m.open.len() == 0 && m.pairs.len() == 0
    &&& at.len() > 0 ==> open_in_order(b, m.open, at.last()) && pairs_in_text(
        b,
        m.pairs,
        at.last(),
    )
    &&& open_around_pairs(m.open, m.pairs)
    &&& pairs_in_order(m.pairs)
}

proof fn lemma_matched(b: Seq<u8>, at: Seq<int>)
    requires
        forall|k: int|
            0 <= k < at.len() ==> 0 <= #[trigger] at[k] < b.len() && (is_open(b[at[k]]) || is_close(
                b[at[k]],
            )),
        forall|j: int, k: int| 0 <= j < k < at.len() ==> at[j] < at[k],
    ensures
        matched(b, at),
    decreases at.len(),
{
    if at.len() > 0 {
        let before = at.drop_last();
        lemma_matched(b, before);
        let m = matching(b, before);
        let now = matching(b, at);
        let p = at.last();
        assert(at[at.len() - 1] == p);
        assert(before.len() > 0 ==> before.last() < p);
        assert(open_in_order(b, m.open, p - 1));
        assert(pairs_in_text(b, m.pairs, p - 1));
        if is_open(b[p]) {
            assert(now.open == m.open.push(p) && now.pairs == m.pairs);
            assert forall|k: int| 0 <= k < m.open.len() implies now.open[k] == #[trigger] m.open[k] by {}
            assert(open_in_order(b, now.open, p));
            assert(open_around_pairs(now.open, now.pairs));
        } else if m.open.len() > 0 {
            let o = m.open.last();
            assert(m.open[m.open.len() - 1] == o);
            assert(now.open == m.open.drop_last());
            assert(open_in_order(b, now.open, p));
            if b[o] == opener_of(b[p]) {
                let d = m.open.len() - 1;
                assert(now.pairs == m.pairs.push((o, p, d)));
                assert forall|k: int| 0 <= k < m.pairs.len() implies now.pairs[k]
                    == #[trigger] m.pairs[k] by {}
                assert(pairs_in_text(b, now.pairs, p));
                assert(open_around_pairs(now.open, now.pairs));
                assert forall|j: int, k: int| 0 <= j < k < now.pairs.len() implies #[trigger]
                apart_or_inside(now.pairs[j], now.pairs[k]) && now.pairs[j].1 < now.pairs[k].1 by {
                    assert(m.pairs[j] == now.pairs[j]);
                    if k < m.pairs.len() {
                        assert(apart_or_inside(m.pairs[j], m.pairs[k]));
                    } else {
                        assert(m.open[d] > m.pairs[j].1 || m.open[d] < m.pairs[j].0);
                    }
                }
                assert(pairs_in_order(now.pairs));
            } else {
                assert(now.pairs == m.pairs);
                assert(open_around_pairs(now.open, now.pairs));
            }
        } else {
            assert(now == m);
        }
        assert(pairs_in_text(b, now.pairs, p));
        assert(open_in_order(b, now.open, p));
    }
}

/// The two brackets of a pair are of one kind, and the opening one comes first.
pub proof fn pairs_are_of_one_kind(b: Seq<u8>, k: int)
    requires
        0 <= k < pairs_of(b).len(),
    ensures
        0 <= pairs_of(b)[k].0 < pairs_of(b)[k].1 < b.len(),
        is_open(b[pairs_of(b)[k].0]),
        is_close(b[pairs_of(b)[k].1]),
        opener_of(b[pairs_of(b)[k].1]) == b[pairs_of(b)[k].0],
{
    lemma_code_brackets(b, 0);
    lemma_matched(b, code_brackets(b, 0));
}

/// Pairs nest: any two lie apart or one inside the other, the inner one deeper,
/// and a pair that closes earlier comes earlier.
pub proof fn pairs_nest(b: Seq<u8>, j: int, k: int)
    requires
        0 <= j < k < pairs_of(b).len(),
    ensures
        apart_or_inside(pairs_of(b)[j], pairs_of(b)[k]),
        pairs_of(b)[j].1 < pairs_of(b)[k].1,
{
    lemma_code_brackets(b, 0);
    lemma_matched(b, code_brackets(b, 0));
    assert(apart_or_inside(pairs_of(b)[j], pairs_of(b)[k]));
}

/// The positions moved on by `n`.
pub open spec fn moved(at: Seq<int>, n: int) -> Seq<int> {
    at.map_values(|p: int| p + n)
}

proof fn lemma_seek_moved(pre: Seq<u8>, t: Seq<u8>, i: int, c: u8)
    requires
        0 <= i,
    ensures
        seek(pre + t, pre.len() + i, c) == pre.len() + seek(t, i, c),
    decreases t.len() - i,
{
    if i < t.len() && t[i] != c {
        lemma_seek_moved(pre, t, i + 1, c);
    }
}

proof fn lemma_block_moved(pre: Seq<u8>, t: Seq<u8>, i: int, depth: nat)
    requires
        0 <= i,
    ensures
        after_block(pre + t, pre.len() + i, depth) == pre.len() + after_block(t, i, depth),
    decreases t.len() - i,
{
    if i < t.len() && depth > 0 {
        if i + 1 < t.len() {
            lemma_block_moved(pre, t, i + 2, depth + 1);
            lemma_block_moved(pre, t, i + 2, (depth - 1) as nat);
        }
        lemma_block_moved(pre, t, i + 1, depth);
    }
}

proof fn lemma_string_moved(pre: Seq<u8>, t: Seq<u8>, i: int)
    requires
        0 <= i,
    ensures
        after_string(pre + t, pre.len() + i) == pre.len() + after_string(t, i),
    decreases t.len() - i,
{
    if i < t.len() {
        lemma_string_moved(pre, t, i + 1);
        if i + 1 < t.len() {
            lemma_string_moved(pre, t, i + 2);
        }
    }
}

proof fn lemma_ticks_moved(pre: Seq<u8>, t: Seq<u8>, i: int)
    requires
        0 <= i,
    ensures
        after_ticks(pre + t, pre.len() + i) == pre.len() + after_ticks(t, i),
    decreases t.len() - i,
{
    if byte_is(t, i, 0x60) {
        lemma_ticks_moved(pre, t, i + 1);
    }
}

proof fn lemma_row_moved(pre: Seq<u8>, t: Seq<u8>, i: int, left: int, n: int)
    requires
        0 <= i,
    ensures
        after_row(pre + t, pre.len() + i, left, n) == pre.len() + after_row(t, i, left, n),
    decreases t.len() - i,
{
    if i < t.len() && left > 0 {
        lemma_row_moved(pre, t, i + 1, left - 1, n);
        lemma_row_moved(pre, t, i + 1, n, n);
    }
}

proof fn lemma_piece_moved(pre: Seq<u8>, t: Seq<u8>, i: int)
    requires
        0 <= i < t.len(),
    ensures
        piece_end(pre + t, pre.len() + i) == pre.len() + piece_end(t, i),
{
    lemma_seek_moved(pre, t, i + 2, 0x0a);
    lemma_block_moved(pre, t, i + 2, 1);
    lemma_string_moved(pre, t, i + 1);
    lemma_ticks_moved(pre, t, i);
    lemma_after_ticks(t, i);
    let inside = after_ticks(t, i);
    lemma_row_moved(pre, t, inside, inside - i, inside - i);
}

proof fn lemma_code_moved(pre: Seq<u8>, t: Seq<u8>, i: int)
    requires
        0 <= i,
    ensures
        code_brackets(pre + t, pre.len() + i) == moved(code_brackets(t, i), pre.len() as int),
    decreases t.len() - i,
{
    let n = pre.len() as int;
    let b = pre + t;
    if i < t.len() {
        assert(b[n + i] == t[i]);
        if is_open(t[i]) || is_close(t[i]) {
            lemma_code_moved(pre, t, i + 1);
            assert(code_brackets(b, n + i) =~= moved(code_brackets(t, i), n));
        } else {
            lemma_piece_end(t, i);
            lemma_piece_moved(pre, t, i);
            lemma_code_moved(pre, t, piece_end(t, i));
        }
    } else {
        assert(code_brackets(b, n + i) =~= moved(code_brackets(t, i), n));
    }
}

/// The positions of all brackets from `i` up to `j`.
pub open spec fn brackets_in(b: Seq<u8>, i: int, j: int) -> Seq<int>
    decreases j - i,
{
    if i >= j {
        Seq::empty()
    } else if is_open(b[i]) || is_close(b[i]) {
        seq![i] + brackets_in(b, i + 1, j)
    } else {
        brackets_in(b, i + 1, j)
    }
}

proof fn lemma_brackets_split(b: Seq<u8>, i: int, m: int, j: int)
    requires
        i <= m <= j,
    ensures
        brackets_in(b, i, j) == brackets_in(b, i, m) + brackets_in(b, m, j),
    decreases m - i,
{
    if i < m {
        lemma_brackets_split(b, i + 1, m, j);
        assert(brackets_in(b, i, j) =~= brackets_in(b, i, m) + brackets_in(b, m, j));
    } else {
        assert(brackets_in(b, i, j) =~= brackets_in(b, i, m) + brackets_in(b, m, j));
    }
}

proof fn lemma_brackets_same(a: Seq<u8>, b: Seq<u8>, i: int, j: int)
    requires
        forall|k: int| i <= k < j ==> #[trigger] a[k] == b[k],
    ensures
        brackets_in(a, i, j) == brackets_in(b, i, j),
        forall|k: int| 0 <= k < brackets_in(b, i, j).len() ==> i <= #[trigger] brackets_in(b, i, j)[k] < j,
    decreases j - i,
{
    if i < j {
        lemma_brackets_same(a, b, i + 1, j);
        assert(a[i] == b[i]);
        let rest = brackets_in(b, i + 1, j);
        assert forall|k: int| 0 <= k < brackets_in(b, i, j).len() implies i <= #[trigger] brackets_in(
            b,
            i,
            j,
        )[k] < j by {
            if is_open(b[i]) || is_close(b[i]) {
                if k > 0 {
                    assert(brackets_in(b, i, j)[k] == rest[k - 1]);
                }
            } else {
                assert(brackets_in(b, i, j)[k] == rest[k]);
            }
        }
    }
}

/// The text has no quote, no backtick and no sign that begins a comment.
pub open spec fn is_plain(b: Seq<u8>) -> bool {
    &&& forall|i: int| 0 <= i < b.len() ==> #[trigger] b[i] != 0x22 && b[i] != 0x60
    &&& forall|i: int|
        0 <= i < b.len() - 1 && #[trigger] b[i] == 0x2f ==> b[i + 1] != 0x2f && b[i + 1] != 0x2a
}

proof fn lemma_plain_start(x: Seq<u8>, y: Seq<u8>, i: int)
    requires
        is_plain(x),
        x.len() > 0 ==> x.last() != 0x2f || y.len() == 0,
        0 <= i <= x.len(),
    ensures
        code_brackets(x + y, i) == brackets_in(x + y, i, x.len() as int) + code_brackets(
            x + y,
            x.len() as int,
        ),
    decreases x.len() - i,
{
    let b = x + y;
    let n = x.len() as int;
    if i < n {
        lemma_plain_start(x, y, i + 1);
        assert(b[i] == x[i]);
        if is_open(b[i]) || is_close(b[i]) {
            assert(code_brackets(b, i) =~= brackets_in(b, i, n) + code_brackets(b, n));
        } else {
            assert(x[i] != 0x22 && x[i] != 0x60);
            if i + 1 < n {
                assert(b[i + 1] == x[i + 1]);
            } else {
                assert(x[i] == x.last());
            }
            assert(piece_end(b, i) == i + 1);
        }
    } else {
        assert(brackets_in(b, i, n) + code_brackets(b, n) =~= code_brackets(b, n));
    }
}

/// In a text without quotes, backticks and comments every bracket counts.
pub proof fn every_bracket_of_a_plain_text_counts(b: Seq<u8>)
    requires
        is_plain(b),
    ensures
        code_brackets(b, 0) == brackets_in(b, 0, b.len() as int),
{
    assert(b + Seq::<u8>::empty() =~= b);
    lemma_plain_start(b, Seq::empty(), 0);
    assert(code_brackets(b, b.len() as int) =~= Seq::empty());
    assert(brackets_in(b, 0, b.len() as int) + Seq::<int>::empty() =~= brackets_in(
        b,
        0,
        b.len() as int,
    ));
}

/// Each opening bracket of the text is closed by one of its kind, and what stands between
/// them is well nested too.
pub open spec fn well_nested(m: Seq<u8>) -> bool
    decreases m.len(),
{
    if m.len() == 0 {
        true
    } else if is_open(m[0]) {
        exists|k: int|
            0 < k < m.len() && is_close(#[trigger] m[k]) && opener_of(m[k]) == m[0] && well_nested(
                m.subrange(1, k),
            ) && well_nested(m.skip(k + 1))
    } else {
        !is_close(m[0]) && well_nested(m.drop_first())
    }
}

/// The pairs `a` come first in `b`.
pub open spec fn starts_with_pairs(a: Seq<(int, int, int)>, b: Seq<(int, int, int)>) -> bool {
    a.len() <= b.len() && b.take(a.len() as int) == a
}

proof fn lemma_starts_through(
    a: Seq<(int, int, int)>,
    b: Seq<(int, int, int)>,
    c: Seq<(int, int, int)>,
)
    requires
        starts_with_pairs(a, b),
        starts_with_pairs(b, c),
    ensures
        starts_with_pairs(a, c),
{
    assert(c.take(a.len() as int) =~= b.take(a.len() as int));
}

/// Pairs that were found stay found.
proof fn lemma_pairs_stay(b: Seq<u8>, at: Seq<int>, more: Seq<int>)
    ensures
        starts_with_pairs(matching(b, at).pairs, matching(b, at + more).pairs),
    decreases more.len(),
{
    let now = matching(b, at).pairs;
    if more.len() == 0 {
        assert(at + more =~= at);
        assert(now.take(now.len() as int) =~= now);
    } else {
        lemma_pairs_stay(b, at, more.drop_last());
        assert((at + more).drop_last() =~= at + more.drop_last());
        let before = matching(b, at + more.drop_last()).pairs;
        let after = matching(b, at + more).pairs;
        assert(after.take(before.len() as int) =~= before);
        lemma_starts_through(now, before, after);
    }
}

/// A well nested stretch leaves the open brackets as they were.
proof fn lemma_nested_stretch(b: Seq<u8>, at: Seq<int>, i: int, j: int)
    requires
        0 <= i <= j <= b.len(),
        well_nested(b.subrange(i, j)),
    ensures
        matching(b, at + brackets_in(b, i, j)).open == matching(b, at).open,
    decreases j - i,
{
    let m = b.subrange(i, j);
    if i == j {
        assert(at + brackets_in(b, i, j) =~= at);
    } else if is_open(m[0]) {
        let k = choose|k: int|
            0 < k < m.len() && is_close(#[trigger] m[k]) && opener_of(m[k]) == m[0] && well_nested(
                m.subrange(1, k),
            ) && well_nested(m.skip(k + 1));
        let c = i + k;
        assert(m.subrange(1, k) =~= b.subrange(i + 1, c));
        assert(m.skip(k + 1) =~= b.subrange(c + 1, j));
        let inner = at.push(i);
        let all = inner + brackets_in(b, i + 1, c);
        lemma_nested_stretch(b, inner, i + 1, c);
        assert(inner.drop_last() =~= at);
        let done = all.push(c);
        assert(done.drop_last() =~= all);
        assert(matching(b, done).open =~= matching(b, at).open);
        lemma_nested_stretch(b, done, c + 1, j);
        lemma_brackets_split(b, i, i + 1, j);
        lemma_brackets_split(b, i + 1, c, j);
        lemma_brackets_split(b, c, c + 1, j);
        reveal_with_fuel(brackets_in, 2);
        assert(brackets_in(b, i, i + 1) =~= seq![i]);
        assert(brackets_in(b, c, c + 1) =~= seq![c]);
        assert(at + brackets_in(b, i, j) =~= done + brackets_in(b, c + 1, j));
    } else {
        assert(m.drop_first() =~= b.subrange(i + 1, j));
        lemma_nested_stretch(b, at, i + 1, j);
    }
}

/// Two brackets of one kind with a well nested text between them close each other.
proof fn lemma_closes(b: Seq<u8>, i: int, k: int)
    requires
        0 <= i < k < b.len(),
        is_open(b[i]),
        is_close(b[k]),
        opener_of(b[k]) == b[i],
        well_nested(b.subrange(i + 1, k)),
    ensures
        matching(b, brackets_in(b, 0, b.len() as int)).pairs.contains(
            (i, k, matching(b, brackets_in(b, 0, i)).open.len() as int),
        ),
{
    let n = b.len() as int;
    let before = brackets_in(b, 0, i);
    let inner = before.push(i);
    let all = inner + brackets_in(b, i + 1, k);
    let done = all.push(k);
    let triple = (i, k, matching(b, before).open.len() as int);
    lemma_nested_stretch(b, inner, i + 1, k);
    assert(inner.drop_last() =~= before);
    assert(done.drop_last() =~= all);
    assert(matching(b, all).open.drop_last() =~= matching(b, before).open);
    assert(matching(b, done).pairs.last() == triple);
    lemma_brackets_split(b, 0, i, n);
    lemma_brackets_split(b, i, i + 1, n);
    lemma_brackets_split(b, i + 1, k, n);
    lemma_brackets_split(b, k, k + 1, n);
    reveal_with_fuel(brackets_in, 2);
    assert(brackets_in(b, i, i + 1) =~= seq![i]);
    assert(brackets_in(b, k, k + 1) =~= seq![k]);
    let rest = brackets_in(b, k + 1, n);
    assert(brackets_in(b, 0, n) =~= done + rest);
    lemma_pairs_stay(b, done, rest);
    let last = matching(b, done).pairs.len() - 1;
    let pairs = matching(b, done + rest).pairs;
    assert(pairs.take(last + 1)[last] == triple);
    assert(pairs[last] == triple);
}

/// There are three kinds of brackets, and each has its own closing one.
pub proof fn brackets_are_of_three_kinds(o: u8, c: u8)
    ensures
        is_open(o) <==> o == 0x28 || o == 0x5b || o == 0x7b,
        is_close(c) <==> c == 0x29 || c == 0x5d || c == 0x7d,
        is_close(c) && opener_of(c) == o <==> (o == 0x28 && c == 0x29) || (o == 0x5b && c == 0x5d)
            || (o == 0x7b && c == 0x7d),
{
}

/// No pair is missed: in a text without quotes, backticks and comments, every opening
/// bracket and closing bracket of one kind that have a well nested text between them are a
/// pair, whatever stands before and after them.
pub proof fn nested_brackets_are_pairs(b: Seq<u8>, i: int, k: int)
    requires
        is_plain(b),
        0 <= i < k < b.len(),
        is_open(b[i]),
        is_close(b[k]),
        opener_of(b[k]) == b[i],
        well_nested(b.subrange(i + 1, k)),
    ensures
        exists|depth: int| #[trigger] pairs_of(b).contains((i, k, depth)),
{
    every_bracket_of_a_plain_text_counts(b);
    lemma_closes(b, i, k);
    let depth = matching(b, brackets_in(b, 0, i)).open.len() as int;
    assert(pairs_of(b).contains((i, k, depth)));
}

/// `outer` are opening brackets one inside the other, and up to `i` nothing but well
/// nested text stands between them.
pub open spec fn stands_in(b: Seq<u8>, outer: Seq<int>, i: int) -> bool
    decreases outer.len(),
{
    if outer.len() == 0 {
        0 <= i <= b.len() && well_nested(b.subrange(0, i))
    } else {
        let o = outer.last();
        &&& 0 <= o < i <= b.len()
        &&& is_open(b[o])
        &&& well_nested(b.subrange(o + 1, i))
        &&& stands_in(b, outer.drop_last(), o)
    }
}

proof fn lemma_stands_in(b: Seq<u8>, outer: Seq<int>, i: int)
    requires
        stands_in(b, outer, i),
    ensures
        matching(b, brackets_in(b, 0, i)).open == outer,
    decreases outer.len(),
{
    let none = Seq::<int>::empty();
    if outer.len() == 0 {
        lemma_nested_stretch(b, none, 0, i);
        assert(none + brackets_in(b, 0, i) =~= brackets_in(b, 0, i));
        assert(matching(b, none).open =~= outer);
    } else {
        let o = outer.last();
        lemma_stands_in(b, outer.drop_last(), o);
        let inner = brackets_in(b, 0, o).push(o);
        assert(inner.drop_last() =~= brackets_in(b, 0, o));
        lemma_nested_stretch(b, inner, o + 1, i);
        lemma_brackets_split(b, 0, o, i);
        lemma_brackets_split(b, o, o + 1, i);
        reveal_with_fuel(brackets_in, 2);
        assert(brackets_in(b, o, o + 1) =~= seq![o]);
        assert(brackets_in(b, 0, i) =~= inner + brackets_in(b, o + 1, i));
        assert(matching(b, inner).open =~= outer);
    }
}

/// A pair is told with the number of brackets that it stands in.
pub proof fn pairs_are_as_deep_as_they_stand(b: Seq<u8>, outer: Seq<int>, i: int, k: int)
    requires
        is_plain(b),
        0 <= i < k < b.len(),
        is_open(b[i]),
        is_close(b[k]),
        opener_of(b[k]) == b[i],
        well_nested(b.subrange(i + 1, k)),
        stands_in(b, outer, i),
    ensures
        pairs_of(b).contains((i, k, outer.len() as int)),
{
    every_bracket_of_a_plain_text_counts(b);
    lemma_closes(b, i, k);
    lemma_stands_in(b, outer, i);
}

/// The text between two quotes: bytes that are neither a quote nor a backslash, and
/// backslashes that each take a byte along.
pub open spec fn is_string_body(body: Seq<u8>) -> bool
    decreases body.len(),
{
    if body.len() == 0 {
        true
    } else if body[0] == 0x5c {
        body.len() >= 2 && is_string_body(body.skip(2))
    } else {
        body[0] != 0x22 && is_string_body(body.skip(1))
    }
}

/// The text between the signs of a block comment: no such sign, but for whole comments
/// inside.
pub open spec fn is_comment_body(body: Seq<u8>) -> bool
    decreases body.len(),
{
    if body.len() == 0 {
        true
    } else if body[0] == 0x2f && byte_is(body, 1, 0x2a) {
        exists|k: int|
            2 <= k < body.len() - 1 && #[trigger] body[k] == 0x2a && body[k + 1] == 0x2f
                && is_comment_body(body.subrange(2, k)) && is_comment_body(body.skip(k + 2))
    } else {
        body[0] != 0x2a && body[0] != 0x2f && is_comment_body(body.skip(1))
    }
}

/// The text between two rows of `n` backticks: it begins and ends with something else, and
/// nowhere do `n` backticks stand in a row.
pub open spec fn is_raw_body(body: Seq<u8>, n: int) -> bool {
    &&& body.len() > 0
    &&& body[0] != 0x60
    &&& body.last() != 0x60
    &&& forall|i: int|
        0 <= i && i + n <= body.len() ==> !all_ticks(#[trigger] body.subrange(i, i + n))
}

pub open spec fn all_ticks(b: Seq<u8>) -> bool {
    forall|i: int| 0 <= i < b.len() ==> #[trigger] b[i] == 0x60
}

/// `q`, with `t` behind it, is no code: a line comment up to its newline, a block comment,
/// a string, or a raw string.
pub open spec fn is_no_code(q: Seq<u8>, t: Seq<u8>) -> bool {
    ||| {
        &&& q.len() >= 2 && q[0] == 0x2f && q[1] == 0x2f
        &&& forall|i: int| 0 <= i < q.len() ==> #[trigger] q[i] != 0x0a
        &&& t.len() > 0 ==> t[0] == 0x0a
    }
    ||| {
        &&& q.len() >= 4 && q[0] == 0x2f && q[1] == 0x2a
        &&& q[q.len() - 2] == 0x2a && q[q.len() - 1] == 0x2f
        &&& is_comment_body(q.subrange(2, q.len() - 2))
    }
    ||| {
        &&& q.len() >= 2 && q[0] == 0x22 && q[q.len() - 1] == 0x22
        &&& is_string_body(q.subrange(1, q.len() - 1))
    }
    ||| exists|n: int| #[trigger] is_raw(q, n)
}

/// `q` is a raw string with `n` backticks on either side; not two, which would be empty.
pub open spec fn is_raw(q: Seq<u8>, n: int) -> bool {
    &&& n > 0 && n != 2
    &&& 2 * n < q.len()
    &&& all_ticks(q.take(n))
    &&& all_ticks(q.skip(q.len() - n))
    &&& is_raw_body(q.subrange(n, q.len() - n), n)
}

proof fn lemma_string_skipped(b: Seq<u8>, i: int, e: int)
    requires
        0 <= i <= e < b.len(),
        b[e] == 0x22,
        is_string_body(b.subrange(i, e)),
    ensures
        after_string(b, i) == e + 1,
    decreases e - i,
{
    let body = b.subrange(i, e);
    if i < e {
        if b[i] == 0x5c {
            assert(body[0] == 0x5c);
            assert(body.skip(2) =~= b.subrange(i + 2, e));
            lemma_string_skipped(b, i + 2, e);
        } else {
            assert(body.skip(1) =~= b.subrange(i + 1, e));
            assert(body[0] == b[i]);
            lemma_string_skipped(b, i + 1, e);
        }
    }
}

proof fn lemma_comment_skipped(b: Seq<u8>, i: int, e: int, depth: nat)
    requires
        0 <= i <= e <= b.len(),
        depth > 0,
        is_comment_body(b.subrange(i, e)),
    ensures
        after_block(b, i, depth) == after_block(b, e, depth),
    decreases e - i,
{
    let body = b.subrange(i, e);
    if i < e {
        assert(body[0] == b[i]);
        if body[0] == 0x2f && byte_is(body, 1, 0x2a) {
            let k = choose|k: int|
                2 <= k < body.len() - 1 && #[trigger] body[k] == 0x2a && body[k + 1] == 0x2f
                    && is_comment_body(body.subrange(2, k)) && is_comment_body(body.skip(k + 2));
            let c = i + k;
            assert(body[1] == b[i + 1] && body[k] == b[c] && body[k + 1] == b[c + 1]);
            assert(body.subrange(2, k) =~= b.subrange(i + 2, c));
            assert(body.skip(k + 2) =~= b.subrange(c + 2, e));
            lemma_comment_skipped(b, i + 2, c, depth + 1);
            lemma_comment_skipped(b, c + 2, e, depth);
            assert(after_block(b, c, depth + 1) == after_block(b, c + 2, depth));
        } else {
            assert(body.skip(1) =~= b.subrange(i + 1, e));
            lemma_comment_skipped(b, i + 1, e, depth);
        }
    }
}

proof fn lemma_line_skipped(b: Seq<u8>, i: int, e: int)
    requires
        0 <= i <= e <= b.len(),
        forall|k: int| i <= k < e ==> #[trigger] b[k] != 0x0a,
        e < b.len() ==> b[e] == 0x0a,
    ensures
        seek(b, i, 0x0a) == e,
    decreases e - i,
{
    if i < e {
        assert(b[i] != 0x0a);
        lemma_line_skipped(b, i + 1, e);
    }
}

proof fn lemma_ticks_skipped(b: Seq<u8>, i: int, e: int)
    requires
        0 <= i <= e < b.len(),
        forall|k: int| i <= k < e ==> #[trigger] b[k] == 0x60,
        b[e] != 0x60,
    ensures
        after_ticks(b, i) == e,
    decreases e - i,
{
    if i < e {
        assert(b[i] == 0x60);
        lemma_ticks_skipped(b, i + 1, e);
    }
}

proof fn lemma_raw_inside(b: Seq<u8>, from: int, e: int, i: int, left: int, n: int)
    requires
        0 <= from < e <= b.len(),
        is_raw_body(b.subrange(from, e), n),
        from <= i <= e,
        0 < left <= n,
        from <= i - (n - left),
        forall|k: int| i - (n - left) <= k < i ==> #[trigger] b[k] == 0x60,
    ensures
        after_row(b, i, left, n) == after_row(b, e, n, n),
    decreases e - i,
{
    let body = b.subrange(from, e);
    if i == e {
        assert(body.last() == b[e - 1]);
        assert(left == n);
    } else if b[i] == 0x60 {
        if left == 1 {
            let at = i - n + 1 - from;
            let row = body.subrange(at, at + n);
            assert forall|k: int| 0 <= k < row.len() implies #[trigger] row[k] == 0x60 by {
                assert(row[k] == b[from + at + k]);
            }
            assert(all_ticks(row));
        }
        lemma_raw_inside(b, from, e, i + 1, left - 1, n);
    } else {
        lemma_raw_inside(b, from, e, i + 1, n, n);
    }
}

proof fn lemma_row_ends(b: Seq<u8>, i: int, left: int, n: int)
    requires
        0 <= left,
        0 <= i,
        i + left <= b.len(),
        forall|k: int| i <= k < i + left ==> #[trigger] b[k] == 0x60,
    ensures
        after_row(b, i, left, n) == i + left,
    decreases left,
{
    if left > 0 {
        assert(b[i] == 0x60);
        lemma_row_ends(b, i + 1, left - 1, n);
    }
}

proof fn lemma_raw_skipped(q: Seq<u8>, t: Seq<u8>, n: int)
    requires
        is_raw(q, n),
    ensures
        after_raw(q + t, 0) == q.len(),
{
    let b = q + t;
    let e = q.len() - n;
    assert(b.subrange(n, e) =~= q.subrange(n, e));
    assert forall|k: int| 0 <= k < n implies #[trigger] b[k] == 0x60 by {
        assert(q.take(n)[k] == 0x60);
    }
    assert(b[n] == q.subrange(n, e)[0]);
    lemma_ticks_skipped(b, 0, n);
    lemma_raw_inside(b, n, e, n, n, n);
    assert forall|k: int| e <= k < e + n implies #[trigger] b[k] == 0x60 by {
        assert(q.skip(e)[k - e] == 0x60);
    }
    lemma_row_ends(b, e, n, n);
}

proof fn lemma_no_code_skipped(q: Seq<u8>, t: Seq<u8>)
    requires
        is_no_code(q, t),
    ensures
        q.len() > 0,
        !is_open(q[0]) && !is_close(q[0]),
        piece_end(q + t, 0) == q.len(),
{
    let b = q + t;
    let n = q.len() as int;
    if exists|n: int| #[trigger] is_raw(q, n) {
        let ticks = choose|n: int| #[trigger] is_raw(q, n);
        assert(q.take(ticks)[0] == 0x60);
        lemma_raw_skipped(q, t, ticks);
    } else if q[0] == 0x22 {
        assert(b.subrange(1, n - 1) =~= q.subrange(1, n - 1));
        lemma_string_skipped(b, 1, n - 1);
    } else if q[1] == 0x2a {
        assert(b.subrange(2, n - 2) =~= q.subrange(2, n - 2));
        lemma_comment_skipped(b, 2, n - 2, 1);
        reveal_with_fuel(after_block, 2);
    } else {
        assert forall|k: int| 2 <= k < n implies #[trigger] b[k] != 0x0a by {
            assert(q[k] != 0x0a);
        }
        lemma_line_skipped(b, 2, n);
    }
}

proof fn lemma_matching_same(a: Seq<u8>, b: Seq<u8>, at: Seq<int>)
    requires
        forall|k: int|
            0 <= k < at.len() ==> 0 <= #[trigger] at[k] < a.len() && at[k] < b.len() && a[at[k]]
                == b[at[k]],
    ensures
        matching(a, at) == matching(b, at),
        forall|k: int|
            0 <= k < matching(a, at).open.len() ==> at.contains(#[trigger] matching(a, at).open[k]),
    decreases at.len(),
{
    if at.len() > 0 {
        let some = at.drop_last();
        assert forall|k: int| 0 <= k < some.len() implies 0 <= #[trigger] some[k] < a.len() && some[k]
            < b.len() && a[some[k]] == b[some[k]] by {
            assert(some[k] == at[k]);
        }
        lemma_matching_same(a, b, some);
        let m = matching(a, some);
        let p = at.last();
        assert(at[at.len() - 1] == p);
        if m.open.len() > 0 {
            let o = m.open.last();
            assert(m.open[m.open.len() - 1] == o);
            assert(some.contains(o));
            let j = choose|j: int| 0 <= j < some.len() && some[j] == o;
            assert(at[j] == o);
        }
        let now = matching(a, at).open;
        assert forall|k: int| 0 <= k < now.len() implies at.contains(#[trigger] now[k]) by {
            if k < m.open.len() {
                assert(now[k] == m.open[k]);
                assert(some.contains(m.open[k]));
                let j = choose|j: int| 0 <= j < some.len() && some[j] == m.open[k];
                assert(at[j] == now[k]);
            } else {
                assert(now[k] == p);
            }
        }
    }
}

/// As many spaces.
pub open spec fn spaces(n: nat) -> Seq<u8> {
    Seq::new(n, |i: int| 0x20u8)
}

proof fn lemma_no_brackets(b: Seq<u8>, i: int, j: int)
    requires
        forall|k: int| i <= k < j ==> #[trigger] b[k] == 0x20,
    ensures
        brackets_in(b, i, j).len() == 0,
    decreases j - i,
{
    if i < j {
        assert(b[i] == 0x20);
        lemma_no_brackets(b, i + 1, j);
    }
}

/// The brackets of a text that is no code count as little as spaces do, and what follows it
/// counts as it does behind spaces: a line comment ends with its line, block comments nest,
/// a string ends with its quote, and a raw string with as many backticks as it began with.
/// `x` is code, `q` is no code, and `t` is anything.
pub proof fn what_is_no_code_counts_as_spaces(x: Seq<u8>, q: Seq<u8>, t: Seq<u8>)
    requires
        is_plain(x),
        x.len() > 0 ==> x.last() != 0x2f,
        is_no_code(q, t),
    ensures
        pairs_of(x + q + t) == pairs_of(x + spaces(q.len()) + t),
{
    let n = x.len() as int;
    let m = (x.len() + q.len()) as int;
    let y = x + spaces(q.len());
    let a = x + q + t;
    let b = y + t;
    lemma_no_code_skipped(q, t);
    assert(a =~= x + (q + t));
    lemma_plain_start(x, q + t, 0);
    lemma_piece_moved(x, q + t, 0);
    assert(a[n] == q[0]);
    assert(code_brackets(a, n) == code_brackets(a, m));
    assert(a =~= (x + q) + t);
    lemma_code_moved(x + q, t, 0);
    assert forall|i: int| 0 <= i < y.len() implies #[trigger] y[i] != 0x22 && y[i] != 0x60 by {
        if i < n {
            assert(y[i] == x[i]);
        }
    }
    assert forall|i: int| 0 <= i < y.len() - 1 && #[trigger] y[i] == 0x2f implies y[i + 1] != 0x2f
        && y[i + 1] != 0x2a by {
        assert(y[i] == x[i]);
        if i + 1 < n {
            assert(y[i + 1] == x[i + 1]);
        }
    }
    lemma_plain_start(y, t, 0);
    lemma_code_moved(y, t, 0);
    lemma_brackets_split(b, 0, n, m);
    assert forall|k: int| n <= k < m implies #[trigger] b[k] == 0x20 by {}
    lemma_no_brackets(b, n, m);
    assert(brackets_in(b, 0, m) =~= brackets_in(b, 0, n));
    lemma_brackets_same(a, b, 0, n);
    let first = brackets_in(b, 0, n);
    let rest = moved(code_brackets(t, 0), m);
    let at = first + rest;
    assert(code_brackets(a, 0) == at);
    assert(code_brackets(b, 0) == at);
    lemma_code_brackets(t, 0);
    assert forall|k: int| 0 <= k < at.len() implies 0 <= #[trigger] at[k] < a.len() && at[k]
        < b.len() && a[at[k]] == b[at[k]] by {
        if k < first.len() {
            assert(at[k] == first[k]);
        } else {
            assert(at[k] == code_brackets(t, 0)[k - first.len()] + m);
        }
    }
    lemma_matching_same(a, b, at);
}

/// A line comment ends with its line: the pairs of what follows are its own pairs, moved on
/// by the length of the comment and its newline.
pub proof fn line_comments_end_with_their_line(l: Seq<u8>, t: Seq<u8>)
    requires
        l.len() >= 2,
        l[0] == 0x2f,
        l[1] == 0x2f,
        forall|i: int| 0 <= i < l.len() ==> #[trigger] l[i] != 0x0a,
    ensures
        pairs_of(l + seq![0x0au8] + t) == pairs_of(t).map_values(
            |p: (int, int, int)| (p.0 + l.len() + 1, p.1 + l.len() + 1, p.2),
        ),
{
    let b = l + seq![0x0au8] + t;
    let n = l.len() as int;
    assert(b =~= l + (seq![0x0au8] + t));
    lemma_no_code_skipped(l, seq![0x0au8] + t);
    assert(b[0] == l[0]);
    assert(code_brackets(b, 0) == code_brackets(b, n));
    assert(b[n] == 0x0a);
    assert(code_brackets(b, n) == code_brackets(b, n + 1));
    let pre = l + seq![0x0au8];
    lemma_code_moved(pre, t, 0);
    lemma_code_brackets(t, 0);
    lemma_matching_moved(pre, t, code_brackets(t, 0));
}

proof fn lemma_matching_moved(pre: Seq<u8>, t: Seq<u8>, at: Seq<int>)
    requires
        forall|k: int| 0 <= k < at.len() ==> 0 <= #[trigger] at[k] < t.len(),
    ensures
        matching(pre + t, moved(at, pre.len() as int)).open == moved(
            matching(t, at).open,
            pre.len() as int,
        ),
        matching(pre + t, moved(at, pre.len() as int)).pairs == matching(t, at).pairs.map_values(
            |p: (int, int, int)| (p.0 + pre.len(), p.1 + pre.len(), p.2),
        ),
        forall|k: int|
            0 <= k < matching(t, at).open.len() ==> 0 <= #[trigger] matching(t, at).open[k] < t.len(),
    decreases at.len(),
{
    let n = pre.len() as int;
    let b = pre + t;
    let f = |p: (int, int, int)| (p.0 + pre.len(), p.1 + pre.len(), p.2);
    if at.len() > 0 {
        let some = at.drop_last();
        assert forall|k: int| 0 <= k < some.len() implies 0 <= #[trigger] some[k] < t.len() by {
            assert(some[k] == at[k]);
        }
        lemma_matching_moved(pre, t, some);
        assert(moved(at, n).drop_last() =~= moved(some, n));
        assert(at[at.len() - 1] == at.last());
        let m = matching(t, some);
        let w = matching(b, moved(some, n));
        let p = at.last();
        assert(moved(at, n).last() == p + n);
        assert(b[p + n] == t[p]);
        if m.open.len() > 0 {
            assert(m.open[m.open.len() - 1] == m.open.last());
            assert(w.open.last() == m.open.last() + n);
            assert(b[w.open.last()] == t[m.open.last()]);
            assert(w.open.drop_last() =~= moved(m.open.drop_last(), n));
        }
        assert(matching(b, moved(at, n)).open =~= moved(matching(t, at).open, n));
        assert(matching(b, moved(at, n)).pairs =~= matching(t, at).pairs.map_values(f));
        let now = matching(t, at).open;
        assert forall|k: int| 0 <= k < now.len() implies 0 <= #[trigger] now[k] < t.len() by {
            if k < m.open.len() {
                assert(now[k] == m.open[k]);
            }
        }
    } else {
        assert(matching(b, moved(at, n)).open =~= moved(matching(t, at).open, n));
        assert(matching(b, moved(at, n)).pairs =~= matching(t, at).pairs.map_values(f));
    }
}

/// The positions of found pairs lie in the source, in order.
proof fn lemma_found_pairs(b: Seq<u8>, found: Seq<(usize, usize, usize)>)
    requires
        widen(found) == pairs_of(b),
    ensures
        pairs_ordered(found),
        forall|k: int| 0 <= k < found.len() ==> (#[trigger] found[k]).0 < found[k].1 < b.len(),
{
    assert forall|k: int| 0 <= k < found.len() implies (#[trigger] found[k]).0 < found[k].1
        < b.len() by {
        assert(widen(found)[k].0 == found[k].0);
        assert(widen(found)[k].1 == found[k].1);
        pairs_are_of_one_kind(b, k);
    }
}

/// The cursor stands on one of the two brackets.
pub open spec fn touches(p: (usize, usize, usize), cursor: usize) -> bool {
    cursor == p.0 || cursor == p.1
}

/// The cursor stands inside the pair.
pub open spec fn encloses(p: (usize, usize, usize), cursor: usize) -> bool {
    p.0 < cursor && cursor <= p.1
}

pub open spec fn wanted(p: (usize, usize, usize), cursor: usize, on: bool) -> bool {
    if on {
        touches(p, cursor)
    } else {
        encloses(p, cursor)
    }
}

/// `k` is the narrowest of the pairs that touch the cursor (`on`) or enclose
/// it, the first of several.
pub open spec fn narrowest(
    pairs: Seq<(usize, usize, usize)>,
    cursor: usize,
    on: bool,
    k: int,
) -> bool {
    &&& 0 <= k < pairs.len()
    &&& wanted(pairs[k], cursor, on)
    &&& forall|j: int|
        0 <= j < pairs.len() && #[trigger] wanted(pairs[j], cursor, on) ==> pairs[k].1 - pairs[k].0
            <= pairs[j].1 - pairs[j].0
    &&& forall|j: int|
        0 <= j < k && #[trigger] wanted(pairs[j], cursor, on) ==> pairs[k].1 - pairs[k].0
            < pairs[j].1 - pairs[j].0
}

/// Some pair touches the cursor (`on`) or encloses it.
pub open spec fn any_wanted(pairs: Seq<(usize, usize, usize)>, cursor: usize, on: bool) -> bool {
    exists|j: int| 0 <= j < pairs.len() && #[trigger] wanted(pairs[j], cursor, on)
}

/// Every pair opens no later than it closes.
pub open spec fn pairs_ordered(pairs: Seq<(usize, usize, usize)>) -> bool {
    forall|j: int| 0 <= j < pairs.len() ==> (#[trigger] pairs[j]).0 <= pairs[j].1
}

fn narrowest_pair(pairs: &[(usize, usize, usize)], cursor: usize, on: bool) -> (r: Option<usize>)
    requires
        pairs_ordered(pairs@),
    ensures
        match r {
            Some(k) => narrowest(pairs@, cursor, on, k as int),
            None => !any_wanted(pairs@, cursor, on),
        },
{
    let mut best: Option<usize> = None;
    let mut i: usize = 0;
    while i < pairs.len()
        invariant
            i <= pairs@.len(),
            pairs_ordered(pairs@),
            match best {
                Some(k) => k < i && narrowest(pairs@.take(i as int), cursor, on, k as int),
                None => !any_wanted(pairs@.take(i as int), cursor, on),
            },
        decreases pairs@.len() - i,
    {
        let p = pairs[i];
        let fits = if on {
            cursor == p.0 || cursor == p.1
        } else {
            p.0 < cursor && cursor <= p.1
        };
        let ghost now = pairs@.take(i as int);
        let ghost next = pairs@.take(i + 1);
        assert(next[i as int] == p);
        assert(forall|j: int| 0 <= j < i ==> next[j] == now[j]);
        if fits {
            match best {
                None => {
                    assert(forall|j: int| 0 <= j < i ==> !wanted(now[j], cursor, on));
                    best = Some(i);
                },
                Some(k) => {
                    assert(now[k as int] == pairs@[k as int]);
                    if p.1 - p.0 < pairs[k].1 - pairs[k].0 {
                        best = Some(i);
                    }
                },
            }
        } else {
            assert(!wanted(next[i as int], cursor, on));
            match best {
                None => {
                    assert(forall|j: int| 0 <= j < i ==> !wanted(now[j], cursor, on));
                },
                Some(_) => {},
            }
        }
        i += 1;
    }
    assert(pairs@.take(i as int) =~= pairs@);
    best
}

/// `r` is the pair that the cursor is at: the narrowest one with a bracket under
/// the cursor, or else the narrowest one around it.
pub open spec fn is_active(
    pairs: Seq<(usize, usize, usize)>,
    cursor: usize,
    r: Option<(usize, usize)>,
) -> bool {
    match r {
        Some(p) => exists|k: int| #[trigger]
            narrowest(pairs, cursor, any_wanted(pairs, cursor, true), k) && p == (
                pairs[k].0,
                pairs[k].1,
            ),
        None => !any_wanted(pairs, cursor, true) && !any_wanted(pairs, cursor, false),
    }
}

/// The pair of the bracket that the cursor stands on is the one that it is at.
pub proof fn the_pair_under_the_cursor_is_active(
    b: Seq<u8>,
    found: Seq<(usize, usize, usize)>,
    k: int,
    cursor: usize,
    r: Option<(usize, usize)>,
)
    requires
        widen(found) == pairs_of(b),
        0 <= k < found.len(),
        cursor == found[k].0 || cursor == found[k].1,
        is_active(found, cursor, r),
    ensures
        r == Some((found[k].0, found[k].1)),
{
    assert(wanted(found[k], cursor, true));
    assert(any_wanted(found, cursor, true));
    let m = choose|m: int| #[trigger]
        narrowest(found, cursor, any_wanted(found, cursor, true), m) && r->0 == (
            found[m].0,
            found[m].1,
        );
    assert(wanted(found[m], cursor, true));
    assert(widen(found)[k] == (found[k].0 as int, found[k].1 as int, found[k].2 as int));
    assert(widen(found)[m] == (found[m].0 as int, found[m].1 as int, found[m].2 as int));
    pairs_are_of_one_kind(b, k);
    pairs_are_of_one_kind(b, m);
    if m < k {
        pairs_nest(b, m, k);
    } else if k < m {
        pairs_nest(b, k, m);
    }
}

/// Where the cursor stands on no bracket, the pair that it is at lies around it, and inside
/// every other pair that does.
pub proof fn the_pair_around_the_cursor_is_the_innermost(
    b: Seq<u8>,
    found: Seq<(usize, usize, usize)>,
    k: int,
    cursor: usize,
    r: Option<(usize, usize)>,
)
    requires
        widen(found) == pairs_of(b),
        0 <= k < found.len(),
        found[k].0 < cursor < found[k].1,
        forall|j: int|
            0 <= j < found.len() ==> (#[trigger] found[j]).0 != cursor && found[j].1 != cursor,
        is_active(found, cursor, r),
    ensures
        r matches Some(p) && found[k].0 <= p.0 < cursor < p.1 <= found[k].1,
{
    assert(wanted(found[k], cursor, false));
    assert(any_wanted(found, cursor, false));
    assert(!any_wanted(found, cursor, true)) by {
        if any_wanted(found, cursor, true) {
            let j = choose|j: int| 0 <= j < found.len() && #[trigger] wanted(found[j], cursor, true);
            assert(found[j].0 != cursor);
        }
    }
    let m = choose|m: int| #[trigger]
        narrowest(found, cursor, any_wanted(found, cursor, true), m) && r->0 == (
            found[m].0,
            found[m].1,
        );
    assert(wanted(found[m], cursor, false));
    assert(found[m].1 != cursor);
    assert(widen(found)[k] == (found[k].0 as int, found[k].1 as int, found[k].2 as int));
    assert(widen(found)[m] == (found[m].0 as int, found[m].1 as int, found[m].2 as int));
    if m < k {
        pairs_nest(b, m, k);
    } else if k < m {
        pairs_nest(b, k, m);
    }
}

/// The pair that the cursor is at: the narrowest one with a bracket under the
/// cursor, or else the narrowest one around it.
pub fn active_pair(pairs: &[(usize, usize, usize)], cursor: usize) -> (r: Option<(usize, usize)>)
    requires
        pairs_ordered(pairs@),
    ensures
        is_active(pairs@, cursor, r),
{
    if let Some(k) = narrowest_pair(pairs, cursor, true) {
        assert(wanted(pairs@[k as int], cursor, true));
        assert(narrowest(pairs@, cursor, any_wanted(pairs@, cursor, true), k as int));
        return Some((pairs[k].0, pairs[k].1));
    }
    match narrowest_pair(pairs, cursor, false) {
        Some(k) => {
            assert(narrowest(pairs@, cursor, any_wanted(pairs@, cursor, true), k as int));
            Some((pairs[k].0, pairs[k].1))
        },
        None => None,
    }
}

/// Sources larger than this many bytes get no bracket mark.
pub const BRACKET_SCAN_LIMIT: usize = 524288;

/// At most this many marks are given.
pub const MAX_MARKS: usize = 4096;

/// What is to be marked. Colours are packed; no colour means no such mark.
pub struct MarkState {
    /// First and last row (from 0) of each error.
    pub error_lines: Vec<(usize, usize)>,
    /// First and last row of each warning.
    pub warning_lines: Vec<(usize, usize)>,
    /// The byte that the cursor is at.
    pub cursor: usize,
    pub error_color: Option<u32>,
    pub warning_color: Option<u32>,
    /// The colour of the pair that the cursor is at.
    pub bracket_active: Option<u32>,
}

/// A coloured stretch of text.
#[derive(Clone, Copy, Debug, PartialEq, Eq, Structural)]
pub struct Mark {
    pub start: offset::Position,
    pub end: offset::Position,
    pub color: u32,
}

/// A stretch of bytes with its colour.
pub struct Stretch {
    pub from: int,
    pub to: int,
    pub color: u32,
}

/// The stretches that lists of rows cover, whole lines each.
pub open spec fn line_stretches(
    b: Seq<u8>,
    lines: Seq<(usize, usize)>,
    color: Option<u32>,
) -> Seq<Stretch> {
    match color {
        Some(c) => lines.map_values(
            |l: (usize, usize)|
                Stretch {
                    from: line_start(b, l.0 as int),
                    to: line_end(b, l.1 as int),
                    color: c,
                },
        ),
        None => Seq::empty(),
    }
}

/// The two brackets that the cursor is at.
pub open spec fn bracket_stretches(
    pair: Option<(usize, usize)>,
    color: Option<u32>,
) -> Seq<Stretch> {
    match (pair, color) {
        (Some(p), Some(c)) => seq![
            Stretch { from: p.0 as int, to: p.0 + 1, color: c },
            Stretch { from: p.1 as int, to: p.1 + 1, color: c },
        ],
        _ => Seq::empty(),
    }
}

/// A line with an error is marked from its beginning to its end: the mark begins at the start
/// of the text or after a newline, ends at a newline or at the end of the text, and covers
/// the rows that are told, the last without a newline in it.
pub proof fn rows_are_marked_whole(b: Seq<u8>, lines: Seq<(usize, usize)>, color: u32, k: int)
    requires
        0 <= k < lines.len(),
        lines[k].0 <= offset::newlines(b),
        lines[k].1 <= offset::newlines(b),
    ensures
        line_stretches(b, lines, Some(color)).len() == lines.len(),
        ({
            let s = line_stretches(b, lines, Some(color))[k];
            &&& s.color == color
            &&& 0 <= s.from <= b.len() && 0 <= s.to <= b.len()
            &&& offset::newlines(b.take(s.from)) == lines[k].0
            &&& s.from == 0 || b[s.from - 1] == 10u8
            &&& s.to == b.len() || b[s.to] == 10u8
            &&& offset::newlines(b.take(s.to)) == lines[k].1
        }),
{
    let (first, last) = lines[k];
    offset::lemma_line_start(b, first as int);
    offset::lemma_line_start(b, last as int);
    let from = line_start(b, last as int);
    offset::rows_end_at_newlines(b, from);
    lemma_no_newlines_between(b, from, line_end(b, last as int));
}

proof fn lemma_no_newlines_between(b: Seq<u8>, i: int, j: int)
    requires
        0 <= i <= j <= b.len(),
        forall|k: int| i <= k < j ==> #[trigger] b[k] != 10u8,
    ensures
        offset::newlines(b.take(i)) == offset::newlines(b.take(j)),
    decreases j - i,
{
    if i < j {
        lemma_no_newlines_between(b, i, j - 1);
        assert(b[j - 1] != 10u8);
        offset::lemma_newlines_step(b, j - 1);
    }
}

/// Both brackets of the pair are marked, one byte each, and nothing else is.
pub proof fn both_brackets_are_marked(p: (usize, usize), color: u32)
    ensures
        bracket_stretches(Some(p), Some(color)).len() == 2,
        bracket_stretches(Some(p), Some(color))[0] == (Stretch {
            from: p.0 as int,
            to: p.0 as int + 1,
            color,
        }),
        bracket_stretches(Some(p), Some(color))[1] == (Stretch {
            from: p.1 as int,
            to: p.1 as int + 1,
            color,
        }),
        bracket_stretches(None, Some(color)).len() == 0,
        bracket_stretches(Some(p), None).len() == 0,
{
}

/// The stretch with both ends moved back to character boundaries.
pub open spec fn settled(s: Seq<char>, r: Stretch) -> Stretch {
    Stretch { from: floor_boundary(s, r.from), to: floor_boundary(s, r.to), color: r.color }
}

/// The stretches that are shown: those that cover something, up to the limit.
pub open spec fn shown(s: Seq<char>, all: Seq<Stretch>) -> Seq<Stretch>
    decreases all.len(),
{
    if all.len() == 0 {
        Seq::empty()
    } else {
        let before = shown(s, all.drop_last());
        let r = settled(s, all.last());
        if before.len() < MAX_MARKS && r.from < r.to {
            before.push(r)
        } else {
            before
        }
    }
}

/// No mark is missing: every stretch that covers something is shown, unless as many as there
/// may be are shown already; and nothing else is.
pub proof fn every_stretch_is_shown(s: Seq<char>, all: Seq<Stretch>)
    ensures
        shown(s, all).len() <= MAX_MARKS,
        shown(s, all).len() <= all.len(),
        forall|i: int|
            0 <= i < all.len() && floor_boundary(s, (#[trigger] all[i]).from) < floor_boundary(
                s,
                all[i].to,
            ) ==> shown(s, all).len() == MAX_MARKS || shown(s, all).contains(
                (Stretch {
                    from: floor_boundary(s, all[i].from),
                    to: floor_boundary(s, all[i].to),
                    color: all[i].color,
                }),
            ),
        forall|k: int|
            0 <= k < shown(s, all).len() ==> exists|i: int|
                0 <= i < all.len() && #[trigger] settled(s, all[i]) == #[trigger] shown(s, all)[k],
    decreases all.len(),
{
    if all.len() > 0 {
        let some = all.drop_last();
        every_stretch_is_shown(s, some);
        let before = shown(s, some);
        let now = shown(s, all);
        assert forall|i: int|
            0 <= i < all.len() && floor_boundary(s, (#[trigger] all[i]).from) < floor_boundary(
                s,
                all[i].to,
            ) implies now.len() == MAX_MARKS || now.contains(settled(s, all[i])) by {
            if i < some.len() {
                assert(some[i] == all[i]);
                if before.len() < MAX_MARKS {
                    assert(before.contains(settled(s, some[i])));
                    let k = choose|k: int|
                        0 <= k < before.len() && before[k] == settled(s, some[i]);
                    assert(now[k] == settled(s, all[i]));
                }
            } else if before.len() < MAX_MARKS {
                assert(now.last() == settled(s, all[i]));
            }
        }
        assert forall|k: int| 0 <= k < now.len() implies exists|i: int|
            0 <= i < all.len() && #[trigger] settled(s, all[i]) == #[trigger] now[k] by {
            if k < before.len() {
                assert(now[k] == before[k]);
                let i = choose|i: int|
                    0 <= i < some.len() && #[trigger] settled(s, some[i]) == before[k];
                assert(settled(s, all[i]) == now[k]);
            } else {
                assert(settled(s, all[all.len() - 1]) == now[k]);
            }
        }
    }
}

/// `m` marks the stretch `r`.
pub open spec fn marks_stretch(b: Seq<u8>, r: Stretch, m: Mark) -> bool {
    &&& offset::is_position(b, r.from, m.start)
    &&& offset::is_position(b, r.to, m.end)
    &&& m.color == r.color
}

/// `ms` mark the stretches `rs`, one each.
pub open spec fn marks_all(b: Seq<u8>, rs: Seq<Stretch>, ms: Seq<Mark>) -> bool {
    ms.len() == rs.len() && forall|i: int|
        0 <= i < ms.len() ==> marks_stretch(b, rs[i], #[trigger] ms[i])
}

/// `p` is the pair to be marked in `source`: the one that the cursor is at,
/// unless the source is too large to be looked through.
pub open spec fn pair_to_mark(source: Seq<char>, cursor: usize, p: Option<(usize, usize)>) -> bool {
    if bytes(source).len() > BRACKET_SCAN_LIMIT {
        p is None
    } else {
        exists|found: Seq<(usize, usize, usize)>| #[trigger]
            widen(found) == pairs_of(bytes(source)) && is_active(found, cursor, p)
    }
}

fn add_mark(source: &str, out: &mut Vec<Mark>, from: usize, to: usize, color: u32, Ghost(
    all,
): Ghost<Seq<Stretch>>)
    requires
        marks_all(bytes(source@), shown(source@, all), old(out)@),
    ensures
        marks_all(
            bytes(source@),
            shown(source@, all.push(Stretch { from: from as int, to: to as int, color })),
            final(out)@,
        ),
{
    let ghost r = Stretch { from: from as int, to: to as int, color };
    assert(all.push(r).drop_last() =~= all);
    let a: usize = offset::floor_char_boundary(source, from);
    let z: usize = offset::floor_char_boundary(source, to);
    if out.len() >= MAX_MARKS || z <= a {
        return;
    }
    proof {
        offset::lemma_floor_boundary(source@, from as int);
        offset::lemma_floor_boundary(source@, to as int);
    }
    let b = source.as_bytes();
    let m = Mark { start: offset::position_at(b, a), end: offset::position_at(b, z), color };
    out.push(m);
}

fn add_lines(source: &str, out: &mut Vec<Mark>, lines: &Vec<(usize, usize)>, color: Option<u32>, Ghost(
    all,
): Ghost<Seq<Stretch>>)
    requires
        marks_all(bytes(source@), shown(source@, all), old(out)@),
    ensures
        marks_all(
            bytes(source@),
            shown(source@, all + line_stretches(bytes(source@), lines@, color)),
            final(out)@,
        ),
{
    let c: u32 = match color {
        Some(c) => c,
        None => {
            assert(all + line_stretches(bytes(source@), lines@, color) =~= all);
            return;
        },
    };
    let ghost add = line_stretches(bytes(source@), lines@, color);
    let b = source.as_bytes();
    let mut i: usize = 0;
    assert(all + add.take(0) =~= all);
    while i < lines.len()
        invariant
            i <= lines@.len(),
            b@ == bytes(source@),
            color == Some(c),
            add == line_stretches(bytes(source@), lines@, color),
            marks_all(b@, shown(source@, all + add.take(i as int)), out@),
        decreases lines@.len() - i,
    {
        let (first, last) = lines[i];
        let from: usize = offset::start_of_line(b, first);
        let to: usize = offset::end_of_line(b, last);
        add_mark(source, out, from, to, c, Ghost(all + add.take(i as int)));
        assert((all + add.take(i as int)).push(
            Stretch { from: from as int, to: to as int, color: c },
        ) =~= all + add.take(i + 1));
        i += 1;
    }
    assert(add.take(i as int) =~= add);
}

/// The marks of a source: error lines, warning lines, then the brackets that
/// the cursor is at.
pub fn marks(source: &str, state: &MarkState) -> (r: Vec<Mark>)
    ensures
        exists|pair: Option<(usize, usize)>| #[trigger]
            pair_to_mark(source@, state.cursor, pair) && marks_all(
                bytes(source@),
                shown(
                    source@,
                    line_stretches(bytes(source@), state.error_lines@, state.error_color)
                        + line_stretches(bytes(source@), state.warning_lines@, state.warning_color)
                        + bracket_stretches(pair, state.bracket_active),
                ),
                r@,
            ),
{
    let mut out: Vec<Mark> = Vec::new();
    let ghost none: Seq<Stretch> = Seq::empty();
    let ghost errors = line_stretches(bytes(source@), state.error_lines@, state.error_color);
    let ghost warnings = line_stretches(bytes(source@), state.warning_lines@, state.warning_color);
    add_lines(source, &mut out, &state.error_lines, state.error_color, Ghost(none));
    assert(none + errors =~= errors);
    add_lines(source, &mut out, &state.warning_lines, state.warning_color, Ghost(errors));
    let mut pair: Option<(usize, usize)> = None;
    if offset::size(source) <= BRACKET_SCAN_LIMIT {
        let pairs = bracket_pairs(source);
        proof {
            lemma_found_pairs(bytes(source@), pairs@);
        }
        pair = active_pair(pairs.as_slice(), state.cursor);
        proof {
            assert(is_active(pairs@, state.cursor, pair));
            if pair is Some {
                let k = choose|k: int| #[trigger]
                    narrowest(pairs@, state.cursor, any_wanted(pairs@, state.cursor, true), k)
                        && pair->0 == (pairs@[k].0, pairs@[k].1);
                assert(pairs@[k].1 < bytes(source@).len());
            }
        }
    }
    if let Some(p) = pair {
        if let Some(c) = state.bracket_active {
            add_mark(source, &mut out, p.0, p.0 + 1, c, Ghost(errors + warnings));
            let ghost one = (errors + warnings).push(
                Stretch { from: p.0 as int, to: p.0 + 1, color: c },
            );
            add_mark(source, &mut out, p.1, p.1 + 1, c, Ghost(one));
            assert(one.push(Stretch { from: p.1 as int, to: p.1 + 1, color: c }) =~= errors
                + warnings + bracket_stretches(pair, state.bracket_active));
        }
    }
    assert(pair is None || state.bracket_active is None ==> errors + warnings + bracket_stretches(
        pair,
        state.bracket_active,
    ) =~= errors + warnings);
    assert(pair_to_mark(source@, state.cursor, pair));
    out
}

} // verus!
