//! Text as a sequence of characters: searching, trimming, joining, and the
//! byte offsets that editors count in.

use vstd::prelude::*;
use vstd::string::*;
use vstd::utf8::*;

verus! {

/// `String::push` appends one character.
pub assume_specification[ String::push ](s: &mut String, c: char)
    ensures
        final(s)@ == old(s)@.push(c),
;

/// The characters of a string, in order.
pub fn chars_of(s: &str) -> (r: Vec<char>)
    ensures
        r@ == s@,
{
    let mut r: Vec<char> = Vec::new();
    for c in it: s.chars()
        invariant
            it.seq() == s@,
            r@ == it.seq().take(it.index() as int),
    {
        r.push(c);
    }
    r
}

/// The string made of the characters `from..to` of `v`.
pub fn text_of(v: &Vec<char>, from: usize, to: usize) -> (r: String)
    requires
        from <= to <= v@.len(),
    ensures
        r@ == v@.subrange(from as int, to as int),
{
    let mut r = String::new();
    let mut i: usize = from;
    while i < to
        invariant
            from <= i <= to <= v@.len(),
            r@ == v@.subrange(from as int, i as int),
        decreases to - i,
    {
        r.push(v[i]);
        i += 1;
    }
    r
}

/// Unicode's `White_Space` property.
pub open spec fn is_space(c: char) -> bool {
    ||| '\u{9}' <= c <= '\u{d}'
    ||| c == ' '
    ||| c == '\u{85}'
    ||| c == '\u{a0}'
    ||| c == '\u{1680}'
    ||| '\u{2000}' <= c <= '\u{200a}'
    ||| c == '\u{2028}'
    ||| c == '\u{2029}'
    ||| c == '\u{202f}'
    ||| c == '\u{205f}'
    ||| c == '\u{3000}'
}

pub fn space(c: char) -> (r: bool)
    ensures
        r == is_space(c),
{
    ('\u{9}' <= c && c <= '\u{d}') || c == ' ' || c == '\u{85}' || c == '\u{a0}' || c == '\u{1680}'
        || ('\u{2000}' <= c && c <= '\u{200a}') || c == '\u{2028}' || c == '\u{2029}'
        || c == '\u{202f}' || c == '\u{205f}' || c == '\u{3000}'
}

/// `s` without leading whitespace.
pub open spec fn trim_start(s: Seq<char>) -> Seq<char>
    decreases s.len(),
{
    if s.len() > 0 && is_space(s[0]) {
        trim_start(s.drop_first())
    } else {
        s
    }
}

/// `s` without trailing whitespace.
pub open spec fn trim_end(s: Seq<char>) -> Seq<char>
    decreases s.len(),
{
    if s.len() > 0 && is_space(s.last()) {
        trim_end(s.drop_last())
    } else {
        s
    }
}

/// `s` without whitespace at either end.
pub open spec fn trimmed(s: Seq<char>) -> Seq<char> {
    trim_end(trim_start(s))
}

/// Where the trimmed part of `v[from..to]` begins and ends.
pub fn trim_bounds(v: &Vec<char>, from: usize, to: usize) -> (r: (usize, usize))
    requires
        from <= to <= v@.len(),
    ensures
        from <= r.0 <= r.1 <= to,
        v@.subrange(r.0 as int, r.1 as int) == trimmed(v@.subrange(from as int, to as int)),
{
    let mut a: usize = from;
    while a < to && space(v[a])
        invariant
            from <= a <= to <= v@.len(),
            trim_start(v@.subrange(from as int, to as int)) == trim_start(
                v@.subrange(a as int, to as int),
            ),
        decreases to - a,
    {
        assert(v@.subrange(a as int, to as int).drop_first() =~= v@.subrange(a + 1, to as int));
        a += 1;
    }
    assert(trim_start(v@.subrange(a as int, to as int)) == v@.subrange(a as int, to as int));
    let mut b: usize = to;
    while a < b && space(v[b - 1])
        invariant
            from <= a <= b <= to <= v@.len(),
            trim_end(v@.subrange(a as int, to as int)) == trim_end(
                v@.subrange(a as int, b as int),
            ),
        decreases b,
    {
        assert(v@.subrange(a as int, b as int).drop_last() =~= v@.subrange(a as int, b - 1));
        b -= 1;
    }
    assert(trim_end(v@.subrange(a as int, b as int)) == v@.subrange(a as int, b as int));
    (a, b)
}

/// `s` without whitespace at either end.
pub fn trim(s: &str) -> (r: String)
    ensures
        r@ == trimmed(s@),
{
    let v = chars_of(s);
    let n: usize = v.len();
    let (a, b) = trim_bounds(&v, 0, n);
    assert(v@.subrange(0, n as int) =~= v@);
    text_of(&v, a, b)
}

/// Whether nothing but whitespace is in `s`.
pub fn is_blank(s: &str) -> (r: bool)
    ensures
        r == (trimmed(s@).len() == 0),
{
    let v = chars_of(s);
    let n: usize = v.len();
    let (a, b) = trim_bounds(&v, 0, n);
    assert(v@.subrange(0, n as int) =~= v@);
    a == b
}

/// `pat` stands in `s` at position `i`.
pub open spec fn occurs_at(s: Seq<char>, pat: Seq<char>, i: int) -> bool {
    0 <= i && i + pat.len() <= s.len() && s.subrange(i, i + pat.len()) == pat
}

/// `pat` stands somewhere in `s`.
pub open spec fn occurs(s: Seq<char>, pat: Seq<char>) -> bool {
    exists|i: int| #[trigger] occurs_at(s, pat, i)
}

/// `i` is the first place at or after `from` where `pat` stands in `s`.
pub open spec fn first_at(s: Seq<char>, pat: Seq<char>, from: int, i: int) -> bool {
    &&& from <= i
    &&& occurs_at(s, pat, i)
    &&& forall|j: int| from <= j < i ==> !#[trigger] occurs_at(s, pat, j)
}

pub fn matches_at(v: &Vec<char>, pat: &Vec<char>, i: usize) -> (r: bool)
    requires
        i <= v@.len(),
    ensures
        r == occurs_at(v@, pat@, i as int),
{
    let n: usize = v.len();
    if pat.len() > n - i {
        return false;
    }
    let mut k: usize = 0;
    while k < pat.len()
        invariant
            k <= pat@.len(),
            n == v@.len(),
            i + pat@.len() <= n,
            forall|j: int| 0 <= j < k ==> v@[i + j] == pat@[j],
        decreases pat@.len() - k,
    {
        if v[i + k] != pat[k] {
            assert(v@.subrange(i as int, i + pat@.len())[k as int] != pat@[k as int]);
            return false;
        }
        k += 1;
    }
    assert(v@.subrange(i as int, i + pat@.len()) =~= pat@);
    true
}

/// The first place at or after `i` where `pat` stands in `s`, or -1.
pub open spec fn search(s: Seq<char>, pat: Seq<char>, i: int) -> int
    decreases s.len() - i,
{
    if occurs_at(s, pat, i) {
        i
    } else if i >= s.len() {
        -1
    } else {
        search(s, pat, i + 1)
    }
}

/// What a search finds is the first occurrence; it finds one if there is one.
pub proof fn lemma_search(s: Seq<char>, pat: Seq<char>, i: int)
    requires
        0 <= i <= s.len(),
    ensures
        search(s, pat, i) >= 0 ==> first_at(s, pat, i, search(s, pat, i)),
        search(s, pat, i) < 0 ==> search(s, pat, i) == -1,
        search(s, pat, i) < 0 ==> forall|j: int| i <= j ==> !#[trigger] occurs_at(s, pat, j),
    decreases s.len() - i,
{
    if !occurs_at(s, pat, i) && i < s.len() {
        lemma_search(s, pat, i + 1);
    }
}

/// The first place at or after `from` where `pat` stands.
pub fn find(v: &Vec<char>, pat: &Vec<char>, from: usize) -> (r: Option<usize>)
    requires
        from <= v@.len(),
    ensures
        match r {
            Some(i) => search(v@, pat@, from as int) == i && from <= i && i + pat@.len() <= v@.len(),
            None => search(v@, pat@, from as int) == -1,
        },
{
    let mut i: usize = from;
    loop
        invariant
            from <= i <= v@.len(),
            search(v@, pat@, from as int) == search(v@, pat@, i as int),
        decreases v@.len() - i,
    {
        if matches_at(v, pat, i) {
            return Some(i);
        }
        if i == v.len() {
            return None;
        }
        i += 1;
    }
}

/// Whether `pat` stands somewhere in `s`.
pub fn contains(s: &str, pat: &str) -> (r: bool)
    ensures
        r == occurs(s@, pat@),
{
    let v = chars_of(s);
    let p = chars_of(pat);
    proof {
        lemma_search(s@, pat@, 0);
    }
    match find(&v, &p, 0) {
        Some(i) => {
            assert(occurs_at(s@, pat@, i as int));
            true
        },
        None => false,
    }
}

/// The pieces of `s` between occurrences of `c`.
pub open spec fn pieces(s: Seq<char>, c: char) -> Seq<Seq<char>>
    decreases s.len(),
{
    if s.len() == 0 {
        seq![Seq::<char>::empty()]
    } else if s.last() == c {
        pieces(s.drop_last(), c).push(Seq::<char>::empty())
    } else {
        let p = pieces(s.drop_last(), c);
        p.drop_last().push(p.last().push(s.last()))
    }
}

/// There is always at least one piece.
pub proof fn lemma_pieces_nonempty(s: Seq<char>, c: char)
    ensures
        pieces(s, c).len() >= 1,
    decreases s.len(),
{
    if s.len() > 0 {
        lemma_pieces_nonempty(s.drop_last(), c);
    }
}

/// The texts of a list of strings.
pub open spec fn views(v: Seq<String>) -> Seq<Seq<char>> {
    v.map_values(|s: String| s@)
}

/// The pieces of `s` between occurrences of `c`.
pub fn split(s: &str, c: char) -> (r: Vec<String>)
    ensures
        views(r@) == pieces(s@, c),
{
    let v = chars_of(s);
    let mut out: Vec<String> = Vec::new();
    let mut cur = String::new();
    let mut i: usize = 0;
    while i < v.len()
        invariant
            i <= v@.len(),
            pieces(v@.take(i as int), c) == views(out@).push(cur@),
        decreases v@.len() - i,
    {
        assert(v@.take(i + 1).drop_last() =~= v@.take(i as int));
        let ghost before = pieces(v@.take(i as int), c);
        assert(before.drop_last() =~= views(out@));
        if v[i] == c {
            let done = cur;
            out.push(done);
            cur = String::new();
            assert(views(out@) =~= before);
        } else {
            cur.push(v[i]);
        }
        i += 1;
    }
    assert(v@.take(i as int) =~= v@);
    let ghost before = out@;
    out.push(cur);
    assert(views(out@) =~= views(before).push(cur@));
    out
}

/// Whether two lists of strings say the same.
pub fn same_texts(a: &Vec<String>, b: &Vec<String>) -> (r: bool)
    ensures
        r == (views(a@) == views(b@)),
{
    if a.len() != b.len() {
        assert(views(a@).len() != views(b@).len());
        return false;
    }
    let mut i: usize = 0;
    while i < a.len()
        invariant
            i <= a@.len(),
            a@.len() == b@.len(),
            forall|j: int| 0 <= j < i ==> views(a@)[j] == views(b@)[j],
        decreases a@.len() - i,
    {
        if a[i] != b[i] {
            assert(views(a@)[i as int] != views(b@)[i as int]);
            return false;
        }
        i += 1;
    }
    assert(views(a@) =~= views(b@));
    true
}

/// The texts put together with `sep` between them.
pub open spec fn joined(parts: Seq<Seq<char>>, sep: Seq<char>) -> Seq<char>
    decreases parts.len(),
{
    if parts.len() == 0 {
        Seq::empty()
    } else if parts.len() == 1 {
        parts[0]
    } else {
        joined(parts.drop_last(), sep) + sep + parts.last()
    }
}

/// The strings `parts[..n]` put together with `sep` between them.
pub fn join(parts: &Vec<String>, n: usize, sep: &str) -> (r: String)
    requires
        n <= parts@.len(),
    ensures
        r@ == joined(views(parts@).take(n as int), sep@),
{
    let mut out = String::new();
    let mut i: usize = 0;
    while i < n
        invariant
            i <= n <= parts@.len(),
            out@ == joined(views(parts@).take(i as int), sep@),
        decreases n - i,
    {
        assert(views(parts@).take(i + 1).drop_last() =~= views(parts@).take(i as int));
        if i > 0 {
            out.append(sep);
        }
        out.append(parts[i].as_str());
        proof {
            if i == 0 {
                assert(views(parts@).take(1)[0] == parts@[0]@);
                assert(out@ =~= parts@[0]@);
            }
        }
        i += 1;
    }
    out
}

/// `s` ends with `c`.
pub open spec fn ends_in(s: Seq<char>, c: char) -> bool {
    s.len() > 0 && s.last() == c
}

pub fn ends_with(s: &str, c: char) -> (r: bool)
    ensures
        r == ends_in(s@, c),
{
    let v = chars_of(s);
    v.len() > 0 && v[v.len() - 1] == c
}

/// Whether the characters are the same.
pub fn same_chars(a: &Vec<char>, b: &Vec<char>) -> (r: bool)
    ensures
        r == (a@ == b@),
{
    if a.len() != b.len() {
        return false;
    }
    let r = matches_at(a, b, 0);
    assert(a@.subrange(0, b@.len() as int) =~= a@);
    r
}

/// Whether two strings say the same.
pub fn same(a: &str, b: &str) -> (r: bool)
    ensures
        r == (a@ == b@),
{
    same_chars(&chars_of(a), &chars_of(b))
}

/// `s` begins with `pat`.
pub open spec fn begins(s: Seq<char>, pat: Seq<char>) -> bool {
    occurs_at(s, pat, 0)
}

/// Whether `s` begins with `pat`.
pub fn starts_with(s: &str, pat: &str) -> (r: bool)
    ensures
        r == begins(s@, pat@),
{
    matches_at(&chars_of(s), &chars_of(pat), 0)
}

/// How many characters there are.
pub fn count(s: &str) -> (r: usize)
    ensures
        r == s@.len(),
{
    s.unicode_len()
}

/// Adds `more` at the end.
pub fn append(s: &mut String, more: &str)
    ensures
        final(s)@ == old(s)@ + more@,
{
    s.append(more);
}

/// Trimming never makes a text longer.
pub proof fn lemma_trim_shrinks(s: Seq<char>)
    ensures
        trim_start(s).len() <= s.len(),
        trim_end(s).len() <= s.len(),
    decreases s.len(),
{
    if s.len() > 0 {
        lemma_trim_shrinks(s.drop_first());
        lemma_trim_shrinks(s.drop_last());
    }
}

/// A text that trimming leaves as it is has no whitespace at either end.
pub proof fn lemma_trimmed_ends(s: Seq<char>)
    requires
        s.len() > 0,
    ensures
        trimmed(s) == s <==> !is_space(s[0]) && !is_space(s.last()),
{
    lemma_trim_shrinks(s);
    if is_space(s[0]) {
        lemma_trim_shrinks(s.drop_first());
        lemma_trim_shrinks(trim_start(s));
    } else if is_space(s.last()) {
        lemma_trim_shrinks(s.drop_last());
    }
}

/// Trimming keeps a first character that is no whitespace.
pub proof fn lemma_trimmed_first(s: Seq<char>)
    requires
        s.len() > 0,
        !is_space(s[0]),
    ensures
        trimmed(s).len() > 0,
        trimmed(s)[0] == s[0],
    decreases s.len(),
{
    if is_space(s.last()) {
        assert(s.len() > 1);
        lemma_trimmed_first(s.drop_last());
        assert(trim_start(s.drop_last()) == s.drop_last());
    }
}

/// Nothing but whitespace is in `s`.
pub open spec fn all_space(s: Seq<char>) -> bool {
    forall|i: int| 0 <= i < s.len() ==> is_space(#[trigger] s[i])
}

/// Leading whitespace goes, up to the first character that is none.
pub proof fn lemma_trim_start(s: Seq<char>)
    ensures
        trim_start(s).len() <= s.len(),
        trim_start(s) == s.skip(s.len() - trim_start(s).len()),
        all_space(s.take(s.len() - trim_start(s).len())),
        trim_start(s).len() > 0 ==> !is_space(trim_start(s)[0]),
    decreases s.len(),
{
    if s.len() > 0 && is_space(s[0]) {
        let rest = s.drop_first();
        lemma_trim_start(rest);
        let n = s.len() - trim_start(s).len();
        assert(rest.skip(n - 1) =~= s.skip(n));
        assert forall|i: int| 0 <= i < n implies is_space(#[trigger] s.take(n)[i]) by {
            if i > 0 {
                assert(rest.take(n - 1)[i - 1] == s[i]);
            }
        }
    } else {
        assert(s.skip(0) =~= s);
    }
}

/// Trailing whitespace goes, down to the last character that is none.
pub proof fn lemma_trim_end(s: Seq<char>)
    ensures
        trim_end(s).len() <= s.len(),
        trim_end(s) == s.take(trim_end(s).len() as int),
        all_space(s.skip(trim_end(s).len() as int)),
        trim_end(s).len() > 0 ==> !is_space(trim_end(s).last()),
    decreases s.len(),
{
    let n = trim_end(s).len() as int;
    if s.len() > 0 && is_space(s.last()) {
        let rest = s.drop_last();
        lemma_trim_end(rest);
        assert(rest.take(n) =~= s.take(n));
        assert forall|i: int| 0 <= i < s.len() - n implies is_space(#[trigger] s.skip(n)[i]) by {
            if i < rest.len() - n {
                assert(rest.skip(n)[i] == s[n + i]);
            }
        }
    } else {
        assert(s.take(n) =~= s);
    }
}

/// Trimming takes whitespace away at both ends and nothing else.
pub proof fn trimming_takes_away_only_whitespace(s: Seq<char>)
    ensures
        exists|before: Seq<char>, after: Seq<char>|
            all_space(before) && all_space(after) && #[trigger] (before + trimmed(s) + after) == s,
        trimmed(s).len() > 0 ==> !is_space(trimmed(s)[0]) && !is_space(trimmed(s).last()),
{
    let t = trim_start(s);
    lemma_trim_start(s);
    lemma_trim_end(t);
    let before = s.take(s.len() - t.len());
    let after = t.skip(trimmed(s).len() as int);
    assert(before + trimmed(s) + after =~= s);
}

proof fn lemma_trim_start_around(before: Seq<char>, rest: Seq<char>)
    requires
        rest.len() > 0,
        !is_space(rest[0]),
    ensures
        trim_start(before + rest) == trim_start(before) + rest,
    decreases before.len(),
{
    if before.len() == 0 {
        assert(before + rest =~= rest);
        assert(trim_start(before) + rest =~= rest);
    } else if is_space(before[0]) {
        lemma_trim_start_around(before.drop_first(), rest);
        assert((before + rest).drop_first() =~= before.drop_first() + rest);
    }
}

proof fn lemma_trim_end_around(rest: Seq<char>, after: Seq<char>)
    requires
        rest.len() > 0,
        !is_space(rest.last()),
    ensures
        trim_end(rest + after) == rest + trim_end(after),
    decreases after.len(),
{
    if after.len() == 0 {
        assert(rest + after =~= rest);
        assert(rest + trim_end(after) =~= rest);
    } else if is_space(after.last()) {
        lemma_trim_end_around(rest, after.drop_last());
        assert((rest + after).drop_last() =~= rest + after.drop_last());
    }
}

/// What stands between two characters that are no whitespace is not touched.
pub proof fn lemma_trimmed_around(before: Seq<char>, inside: Seq<char>, after: Seq<char>)
    requires
        inside.len() > 0,
        !is_space(inside[0]),
        !is_space(inside.last()),
    ensures
        trimmed(before + inside + after) == trim_start(before) + inside + trim_end(after),
{
    assert(before + inside + after =~= before + (inside + after));
    lemma_trim_start_around(before, inside + after);
    assert(trim_start(before) + (inside + after) =~= (trim_start(before) + inside) + after);
    lemma_trim_end_around(trim_start(before) + inside, after);
}

/// The first place found is the one that is the first.
pub proof fn lemma_search_is(s: Seq<char>, pat: Seq<char>, from: int, i: int)
    requires
        0 <= from <= s.len(),
        first_at(s, pat, from, i),
    ensures
        search(s, pat, from) == i,
{
    lemma_search(s, pat, from);
}

/// Where there is no place, none is found.
pub proof fn lemma_search_none(s: Seq<char>, pat: Seq<char>, from: int)
    requires
        0 <= from <= s.len(),
        forall|j: int| from <= j ==> !#[trigger] occurs_at(s, pat, j),
    ensures
        search(s, pat, from) == -1,
{
    lemma_search(s, pat, from);
}

/// What is appended without `c` in it goes to the last piece.
pub proof fn lemma_pieces_append(s: Seq<char>, t: Seq<char>, c: char)
    requires
        forall|i: int| 0 <= i < t.len() ==> t[i] != c,
    ensures
        pieces(s + t, c) == pieces(s, c).drop_last().push(pieces(s, c).last() + t),
    decreases t.len(),
{
    lemma_pieces_nonempty(s, c);
    if t.len() == 0 {
        assert(s + t =~= s);
        assert(pieces(s, c).last() + t =~= pieces(s, c).last());
        assert(pieces(s, c) =~= pieces(s, c).drop_last().push(pieces(s, c).last()));
    } else {
        lemma_pieces_append(s, t.drop_last(), c);
        assert((s + t).drop_last() =~= s + t.drop_last());
        assert((s + t).last() == t.last());
        let p = pieces(s + t.drop_last(), c);
        assert(p.drop_last() =~= pieces(s, c).drop_last());
        assert(p.last().push(t.last()) =~= pieces(s, c).last() + t);
    }
}

/// The pieces on either side of a separator are pieces of their own.
pub proof fn lemma_pieces_around(a: Seq<char>, c: char, b: Seq<char>)
    ensures
        pieces(a + seq![c] + b, c) == pieces(a, c) + pieces(b, c),
    decreases b.len(),
{
    lemma_pieces_nonempty(a, c);
    lemma_pieces_nonempty(b, c);
    let all = a + seq![c] + b;
    if b.len() == 0 {
        assert(all.drop_last() =~= a);
        assert(pieces(all, c) =~= pieces(a, c) + pieces(b, c));
    } else {
        let some = b.drop_last();
        lemma_pieces_around(a, c, some);
        lemma_pieces_nonempty(some, c);
        assert(all.drop_last() =~= a + seq![c] + some);
        assert(all.last() == b.last());
        assert(pieces(all, c) =~= pieces(a, c) + pieces(b, c));
    }
}

/// Cutting a text into pieces loses nothing: put together again they are the text, and the
/// separator stands in none of them.
pub proof fn pieces_make_the_text(s: Seq<char>, c: char)
    ensures
        joined(pieces(s, c), seq![c]) == s,
        forall|i: int, j: int|
            0 <= i < pieces(s, c).len() && 0 <= j < pieces(s, c)[i].len() ==> #[trigger] pieces(
                s,
                c,
            )[i][j] != c,
    decreases s.len(),
{
    lemma_pieces_nonempty(s, c);
    let all = pieces(s, c);
    if s.len() == 0 {
        assert(joined(all, seq![c]) =~= s);
    } else {
        let d = s.drop_last();
        pieces_make_the_text(d, c);
        lemma_pieces_nonempty(d, c);
        let before = pieces(d, c);
        assert forall|i: int, j: int|
            0 <= i < all.len() && 0 <= j < all[i].len() implies #[trigger] all[i][j] != c by {
            if i < before.len() - 1 {
                assert(all[i][j] == before[i][j]);
            } else if s.last() == c {
                if i == before.len() - 1 {
                    assert(all[i][j] == before[i][j]);
                }
            } else if j < before.last().len() {
                assert(all[i][j] == before[before.len() - 1][j]);
            }
        }
        if s.last() == c {
            assert(all.drop_last() =~= before);
            assert(joined(all, seq![c]) =~= d + seq![c]);
            assert(d + seq![c] =~= s);
        } else {
            assert(all.drop_last() =~= before.drop_last());
            assert(all.last() == before.last().push(s.last()));
            assert(joined(all, seq![c]) =~= joined(before, seq![c]).push(s.last()));
            assert(d.push(s.last()) =~= s);
        }
    }
}

/// There are no more pieces than characters and one, and none is longer than the
/// text.
pub proof fn lemma_pieces_small(s: Seq<char>, c: char)
    ensures
        pieces(s, c).len() <= s.len() + 1,
        forall|i: int| 0 <= i < pieces(s, c).len() ==> (#[trigger] pieces(s, c)[i]).len() <= s.len(),
    decreases s.len(),
{
    lemma_pieces_nonempty(s, c);
    if s.len() > 0 {
        let p = pieces(s.drop_last(), c);
        lemma_pieces_small(s.drop_last(), c);
        lemma_pieces_nonempty(s.drop_last(), c);
        assert forall|i: int| 0 <= i < pieces(s, c).len() implies (#[trigger] pieces(s, c)[i]).len()
            <= s.len() by {
            if i < p.len() - 1 {
                assert(pieces(s, c)[i] == p[i]);
            } else if s.last() == c && i == p.len() - 1 {
                assert(pieces(s, c)[i] == p[i]);
            } else if s.last() != c {
                assert(p.last() == p[p.len() - 1]);
            }
        }
    }
}

/// Strings of the texts of a list.
pub fn list(parts: &[&str]) -> (r: Vec<String>)
    ensures
        views(r@) == parts@.map_values(|s: &str| s@),
{
    let mut out: Vec<String> = Vec::new();
    let mut i: usize = 0;
    while i < parts.len()
        invariant
            i <= parts@.len(),
            out@.len() == i,
            forall|j: int| 0 <= j < i ==> (#[trigger] out@[j])@ == parts@[j]@,
        decreases parts@.len() - i,
    {
        out.push(parts[i].to_owned());
        i += 1;
    }
    assert(views(out@) =~= parts@.map_values(|s: &str| s@));
    out
}

/// `s` ends with `pat`.
pub open spec fn closes(s: Seq<char>, pat: Seq<char>) -> bool {
    s.len() >= pat.len() && s.skip(s.len() - pat.len()) == pat
}

/// Whether `s` ends with `pat`.
pub fn ends_with_text(s: &str, pat: &str) -> (r: bool)
    ensures
        r == closes(s@, pat@),
{
    let v = chars_of(s);
    let p = chars_of(pat);
    if v.len() < p.len() {
        return false;
    }
    let at: usize = v.len() - p.len();
    let r = matches_at(&v, &p, at);
    assert(v@.skip(at as int) =~= v@.subrange(at as int, at + p@.len()));
    r
}

/// Where `pat` occurs last in `s` at or before `i`, or -1.
pub open spec fn search_back(s: Seq<char>, pat: Seq<char>, i: int) -> int
    decreases i + 1,
{
    if i < 0 {
        -1
    } else if occurs_at(s, pat, i) {
        i
    } else {
        search_back(s, pat, i - 1)
    }
}

/// What follows the last occurrence of `pat` in `s`, or all of `s`.
pub open spec fn after_last(s: Seq<char>, pat: Seq<char>) -> Seq<char> {
    let at = search_back(s, pat, s.len() as int);
    if at < 0 {
        s
    } else {
        s.skip(at + pat.len())
    }
}

/// The last place found is the one that is the last.
pub proof fn lemma_search_back_is(s: Seq<char>, pat: Seq<char>, from: int, i: int)
    requires
        0 <= i <= from,
        occurs_at(s, pat, i),
        forall|j: int| i < j ==> !#[trigger] occurs_at(s, pat, j),
    ensures
        search_back(s, pat, from) == i,
    decreases from,
{
    if from > i {
        assert(!occurs_at(s, pat, from));
        lemma_search_back_is(s, pat, from - 1, i);
    }
}

/// Where what follows the last occurrence of `pat` in `v` begins.
pub fn start_after_last(v: &Vec<char>, pat: &Vec<char>) -> (r: usize)
    ensures
        r <= v@.len(),
        v@.skip(r as int) == after_last(v@, pat@),
{
    let n: usize = v.len();
    let mut i: usize = n;
    loop
        invariant
            i <= n,
            n == v@.len(),
            search_back(v@, pat@, v@.len() as int) == search_back(v@, pat@, i as int),
        decreases i,
    {
        if matches_at(v, pat, i) {
            return i + pat.len();
        }
        if i == 0 {
            assert(search_back(v@, pat@, -1) == -1);
            assert(v@.skip(0) =~= v@);
            return 0;
        }
        i -= 1;
    }
}

/// A line without the carriage return at its end.
pub open spec fn without_return(s: Seq<char>) -> Seq<char> {
    if s.len() > 0 && s.last() == '\r' {
        s.drop_last()
    } else {
        s
    }
}

/// The lines of a text: each ends with a newline, before which a carriage return
/// belongs to the end of the line; what follows the last newline is a line unless it
/// is empty.
pub open spec fn text_lines(s: Seq<char>) -> Seq<Seq<char>> {
    let p = pieces(s, '\n');
    let ended = p.drop_last().map_values(|l: Seq<char>| without_return(l));
    if p.last().len() == 0 {
        ended
    } else {
        ended.push(p.last())
    }
}

/// The lines of a text.
pub fn lines(s: &str) -> (r: Vec<String>)
    ensures
        views(r@) == text_lines(s@),
{
    proof {
        lemma_pieces_nonempty(s@, '\n');
    }
    let parts = split(s, '\n');
    let ghost p = pieces(s@, '\n');
    let n: usize = parts.len();
    assert(p.len() == n);
    let mut out: Vec<String> = Vec::new();
    let mut i: usize = 0;
    while i + 1 < n
        invariant
            n == parts@.len() == p.len(),
            p == views(parts@),
            i + 1 <= n,
            out@.len() == i,
            forall|j: int| 0 <= j < i ==> (#[trigger] out@[j])@ == without_return(p[j]),
        decreases n - i,
    {
        let v = chars_of(parts[i].as_str());
        assert(v@ == p[i as int]);
        let mut end: usize = v.len();
        if end > 0 && v[end - 1] == '\r' {
            end -= 1;
        }
        assert(v@.subrange(0, end as int) =~= without_return(v@));
        out.push(text_of(&v, 0, end));
        i += 1;
    }
    let ghost ended = p.drop_last().map_values(|l: Seq<char>| without_return(l));
    assert(views(out@) =~= ended);
    let last = parts[n - 1].clone();
    assert(last@ == p.last());
    if !last.as_str().is_empty() {
        let ghost before = out@;
        out.push(last);
        assert(views(out@) =~= views(before).push(last@));
    }
    out
}

/// Adds strings of the texts of a list.
pub fn extend(to: &mut Vec<String>, parts: &[&str])
    ensures
        views(final(to)@) == views(old(to)@) + parts@.map_values(|s: &str| s@),
{
    let ghost before = views(to@);
    let ghost more = parts@.map_values(|s: &str| s@);
    let mut i: usize = 0;
    assert(before + more.take(0) =~= before);
    while i < parts.len()
        invariant
            i <= parts@.len(),
            more == parts@.map_values(|s: &str| s@),
            views(to@) == before + more.take(i as int),
        decreases parts@.len() - i,
    {
        let ghost was = to@;
        to.push(parts[i].to_owned());
        assert(views(to@) =~= views(was).push(parts@[i as int]@));
        assert(views(to@) =~= before + more.take(i + 1));
        i += 1;
    }
    assert(more.take(i as int) =~= more);
}

/// Two texts, one after the other.
pub fn both(a: &str, b: &str) -> (r: String)
    ensures
        r@ == a@ + b@,
{
    let mut out = a.to_owned();
    out.append(b);
    out
}

/// Three texts, one after the other.
pub fn three(a: &str, b: &str, c: &str) -> (r: String)
    ensures
        r@ == a@ + b@ + c@,
{
    let mut out = a.to_owned();
    out.append(b);
    out.append(c);
    out
}

/// An optional string as an optional text.
pub open spec fn optional(s: Option<String>) -> Option<Seq<char>> {
    match s {
        Some(t) => Some(t@),
        None => None,
    }
}

/// An optional borrowed string as an optional text.
pub open spec fn said(s: Option<&str>) -> Option<Seq<char>> {
    match s {
        Some(t) => Some(t@),
        None => None,
    }
}

/// The borrowed form of an optional string.
pub fn borrowed(s: &Option<String>) -> (r: Option<&str>)
    ensures
        said(r) == optional(*s),
{
    match s {
        Some(t) => Some(t.as_str()),
        None => None,
    }
}

} // verus!
