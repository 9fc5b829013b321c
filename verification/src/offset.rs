//! Byte offsets into text: the UTF-8 bytes of a string, the boundaries between
//! its characters, and the lines that newlines cut it into.

use vstd::prelude::*;
use vstd::string::*;
use vstd::utf8::*;

verus! {

/// The bytes of a text.
pub open spec fn bytes(s: Seq<char>) -> Seq<u8> {
    encode_utf8(s)
}

/// Byte offset `o` lies between two characters of `s` (or at either end).
pub open spec fn on_boundary(s: Seq<char>, o: int) -> bool {
    is_char_boundary(bytes(s), o)
}

/// The last character boundary of `s` that is not past `o`.
pub open spec fn floor_boundary(s: Seq<char>, o: int) -> int
    decreases o,
{
    if o <= 0 {
        0
    } else if o > bytes(s).len() {
        bytes(s).len() as int
    } else if on_boundary(s, o) {
        o
    } else {
        floor_boundary(s, o - 1)
    }
}

/// The bytes of two texts put together are their bytes put together.
pub proof fn lemma_bytes_concat(a: Seq<char>, b: Seq<char>)
    ensures
        bytes(a + b) == bytes(a) + bytes(b),
    decreases a.len(),
{
    if a.len() == 0 {
        assert(a + b =~= b);
        assert(bytes(a) + bytes(b) =~= bytes(b));
    } else {
        lemma_bytes_concat(a.drop_first(), b);
        assert((a + b).drop_first() =~= a.drop_first() + b);
        assert(bytes(a + b) =~= bytes(a) + bytes(b));
    }
}

/// Texts with the same bytes are the same text.
pub proof fn lemma_bytes_injective(a: Seq<char>, b: Seq<char>)
    requires
        bytes(a) == bytes(b),
    ensures
        a == b,
{
    encode_utf8_decode_utf8(a);
    encode_utf8_decode_utf8(b);
}

/// The end of a leading part of a text is a character boundary.
pub proof fn lemma_prefix_boundary(a: Seq<char>, b: Seq<char>)
    ensures
        on_boundary(a + b, bytes(a).len() as int),
    decreases a.len(),
{
    encode_utf8_valid_utf8(a + b);
    if a.len() == 0 {
    } else {
        lemma_prefix_boundary(a.drop_first(), b);
        assert((a + b).drop_first() =~= a.drop_first() + b);
        encode_utf8_first_scalar(a + b);
        lemma_bytes_concat(a, b);
        assert(pop_first_scalar(bytes(a + b)) =~= bytes(a.drop_first() + b));
    }
}

/// Both ends of a text are character boundaries.
pub proof fn lemma_ends_are_boundaries(s: Seq<char>)
    ensures
        on_boundary(s, 0),
        on_boundary(s, bytes(s).len() as int),
{
    encode_utf8_valid_utf8(s);
    is_char_boundary_start_end_of_seq(bytes(s));
}

/// A boundary never lies outside the text.
pub proof fn lemma_boundary_in_range(s: Seq<char>, o: int)
    requires
        on_boundary(s, o),
    ensures
        0 <= o <= bytes(s).len(),
{
    encode_utf8_valid_utf8(s);
}

/// Just after a newline byte lies a character boundary.
pub proof fn lemma_after_newline(s: Seq<char>, i: int)
    requires
        0 <= i < bytes(s).len(),
        bytes(s)[i] < 0x80,
    ensures
        on_boundary(s, i),
        on_boundary(s, i + 1),
    decreases s.len(),
{
    encode_utf8_valid_utf8(s);
    assert(s.len() > 0);
    encode_utf8_first_scalar(s);
    let rest = s.drop_first();
    let n = length_of_first_scalar(bytes(s));
    assert(pop_first_scalar(bytes(s)) =~= bytes(rest));
    encode_utf8_valid_utf8(rest);
    if i < n {
        assert(i == 0 && n == 1);
        reveal_with_fuel(is_char_boundary, 2);
    } else {
        assert(bytes(rest)[i - n] == bytes(s)[i]);
        lemma_after_newline(rest, i - n);
    }
}

/// What `floor_boundary` is: a boundary at or before `o` with none in between.
pub proof fn lemma_floor_boundary(s: Seq<char>, o: int)
    ensures
        on_boundary(s, floor_boundary(s, o)),
        0 <= floor_boundary(s, o) <= bytes(s).len(),
        o >= 0 ==> floor_boundary(s, o) <= o,
        forall|j: int| floor_boundary(s, o) < j <= o ==> !on_boundary(s, j),
        on_boundary(s, o) ==> floor_boundary(s, o) == o,
    decreases o,
{
    lemma_ends_are_boundaries(s);
    encode_utf8_valid_utf8(s);
    if 0 < o <= bytes(s).len() && !on_boundary(s, o) {
        lemma_floor_boundary(s, o - 1);
    }
}

/// The two parts of a text on either side of a boundary.
pub fn split(s: &str, at: usize) -> (r: (&str, &str))
    requires
        on_boundary(s@, at as int),
    ensures
        r.0@ + r.1@ == s@,
        bytes(r.0@) == bytes(s@).subrange(0, at as int),
        bytes(r.1@) == bytes(s@).subrange(at as int, bytes(s@).len() as int),
{
    proof {
        lemma_boundary_in_range(s@, at as int);
    }
    let r = s.split_at(at);
    proof {
        lemma_bytes_concat(r.0@, r.1@);
        assert(bytes(r.0@) + bytes(r.1@) =~= bytes(s@));
        lemma_bytes_injective(r.0@ + r.1@, s@);
    }
    r
}

/// How many bytes a text has.
pub fn size(s: &str) -> (r: usize)
    ensures
        r == bytes(s@).len(),
{
    s.as_bytes().len()
}

/// The character boundary at or before `offset`, past the end counting as the end.
pub fn floor_char_boundary(text: &str, offset: usize) -> (r: usize)
    ensures
        r == floor_boundary(text@, offset as int),
{
    let n: usize = size(text);
    if offset > n {
        return n;
    }
    let mut o: usize = offset;
    proof {
        lemma_ends_are_boundaries(text@);
    }
    while o > 0 && !text.is_char_boundary(o)
        invariant
            o <= offset <= n,
            n == bytes(text@).len(),
            floor_boundary(text@, offset as int) == floor_boundary(text@, o as int),
        decreases o,
    {
        o -= 1;
    }
    o
}

/// How many newline bytes there are.
pub open spec fn newlines(b: Seq<u8>) -> nat
    decreases b.len(),
{
    if b.len() == 0 {
        0
    } else {
        newlines(b.drop_last()) + if b.last() == 10u8 {
            1nat
        } else {
            0
        }
    }
}

/// The byte where line `row` (the first line is 0) begins: just after newline
/// number `row`, or the end where there are fewer.
pub open spec fn line_start(b: Seq<u8>, row: int) -> int
    decreases b.len(),
{
    if row <= 0 {
        0
    } else if b.len() == 0 {
        0
    } else if b.last() == 10u8 && newlines(b) == row {
        b.len() as int
    } else if newlines(b) < row {
        b.len() as int
    } else {
        line_start(b.drop_last(), row)
    }
}

/// Adding a byte adds one newline, or none.
pub proof fn lemma_newlines_step(b: Seq<u8>, i: int)
    requires
        0 <= i < b.len(),
    ensures
        newlines(b.take(i + 1)) == newlines(b.take(i)) + if b[i] == 10u8 {
            1nat
        } else {
            0
        },
{
    assert(b.take(i + 1).drop_last() =~= b.take(i));
}

/// A longer part has at least as many newlines.
pub proof fn lemma_newlines_monotone(b: Seq<u8>, i: int, j: int)
    requires
        0 <= i <= j <= b.len(),
    ensures
        newlines(b.take(i)) <= newlines(b.take(j)) <= newlines(b.take(i)) + (j - i),
    decreases j - i,
{
    if i < j {
        lemma_newlines_monotone(b, i, j - 1);
        lemma_newlines_step(b, j - 1);
    }
}

/// Line `row` begins just after newline number `row`.
pub proof fn lemma_line_start(b: Seq<u8>, row: int)
    requires
        0 <= row <= newlines(b),
    ensures
        0 <= line_start(b, row) <= b.len(),
        newlines(b.take(line_start(b, row))) == row,
        row > 0 ==> line_start(b, row) > 0 && b[line_start(b, row) - 1] == 10u8,
    decreases b.len(),
{
    if row > 0 && b.len() > 0 {
        if b.last() == 10u8 && newlines(b) == row {
            assert(b.take(b.len() as int) =~= b);
        } else {
            let c = b.drop_last();
            lemma_line_start(c, row);
            assert(b.take(line_start(c, row)) =~= c.take(line_start(c, row)));
        }
    }
}

/// The place after newline number `row` is where line `row` begins.
pub proof fn lemma_line_start_unique(b: Seq<u8>, row: int, p: int)
    requires
        0 < p <= b.len(),
        b[p - 1] == 10u8,
        newlines(b.take(p)) == row,
    ensures
        line_start(b, row) == p,
    decreases b.len(),
{
    lemma_newlines_step(b, p - 1);
    if p == b.len() {
        assert(b.take(p) =~= b);
    } else {
        let c = b.drop_last();
        lemma_newlines_monotone(b, p, b.len() as int);
        lemma_newlines_monotone(b, p, b.len() - 1);
        assert(b.take(b.len() as int) =~= b);
        assert(b.take(b.len() - 1) =~= c);
        assert(c.take(p) =~= b.take(p));
        lemma_line_start_unique(c, row, p);
        if b.last() == 10u8 {
            assert(newlines(b) == newlines(c) + 1);
        }
    }
}

/// The start of a line is a character boundary.
pub proof fn lemma_line_start_boundary(s: Seq<char>, row: int)
    requires
        0 <= row <= newlines(bytes(s)),
    ensures
        on_boundary(s, line_start(bytes(s), row)),
{
    lemma_line_start(bytes(s), row);
    lemma_ends_are_boundaries(s);
    if row > 0 {
        lemma_after_newline(s, line_start(bytes(s), row) - 1);
    }
}

/// How many newlines stand before byte `to`.
pub fn count_newlines(b: &[u8], to: usize) -> (r: usize)
    requires
        to <= b@.len(),
    ensures
        r == newlines(b@.take(to as int)),
        r <= to,
{
    let mut n: usize = 0;
    let mut i: usize = 0;
    while i < to
        invariant
            i <= to <= b@.len(),
            n == newlines(b@.take(i as int)),
            n <= i,
        decreases to - i,
    {
        proof {
            lemma_newlines_step(b@, i as int);
        }
        if b[i] == 10 {
            n += 1;
        }
        i += 1;
    }
    n
}

/// Where line `row` begins.
pub fn start_of_line(b: &[u8], row: usize) -> (r: usize)
    ensures
        r == line_start(b@, row as int),
        r <= b@.len(),
{
    if row == 0 {
        return 0;
    }
    let mut n: usize = 0;
    let mut i: usize = 0;
    while i < b.len()
        invariant
            i <= b@.len(),
            n == newlines(b@.take(i as int)),
            n < row,
            n <= i,
        decreases b@.len() - i,
    {
        proof {
            lemma_newlines_step(b@, i as int);
        }
        if b[i] == 10 {
            n += 1;
            if n == row {
                proof {
                    lemma_line_start_unique(b@, row as int, i + 1);
                }
                return i + 1;
            }
        }
        i += 1;
    }
    assert(b@.take(i as int) =~= b@);
    b.len()
}

/// How many characters begin in `b`: continuation bytes begin none.
pub open spec fn starts(b: Seq<u8>) -> nat
    decreases b.len(),
{
    if b.len() == 0 {
        0
    } else {
        starts(b.drop_last()) + if is_continuation_byte(b.last()) {
            0nat
        } else {
            1
        }
    }
}

/// How many characters stand between the start of its line and byte `o`.
pub open spec fn column(b: Seq<u8>, o: int) -> nat {
    starts(b.subrange(line_start(b, newlines(b.take(o)) as int), o))
}

/// A place in a text by row and column, both counted from 0.
#[derive(Clone, Copy, Debug, PartialEq, Eq, Structural)]
pub struct Position {
    pub line: usize,
    pub character: usize,
}

/// `p` is the place of byte `o`.
pub open spec fn is_position(b: Seq<u8>, o: int, p: Position) -> bool {
    p.line == newlines(b.take(o)) && p.character == column(b, o)
}

/// The place of a byte.
pub fn position_at(b: &[u8], o: usize) -> (r: Position)
    requires
        o <= b@.len(),
    ensures
        is_position(b@, o as int, r),
{
    let mut line: usize = 0;
    let mut start: usize = 0;
    let mut character: usize = 0;
    let mut i: usize = 0;
    while i < o
        invariant
            start <= i <= o <= b@.len(),
            line <= i,
            character <= i - start,
            line == newlines(b@.take(i as int)),
            start == 0 ==> line == 0,
            start > 0 ==> b@[start - 1] == 10u8 && newlines(b@.take(start as int)) == line,
            character == starts(b@.subrange(start as int, i as int)),
        decreases o - i,
    {
        proof {
            lemma_newlines_step(b@, i as int);
            assert(b@.subrange(start as int, i + 1).drop_last() =~= b@.subrange(
                start as int,
                i as int,
            ));
        }
        let c: u8 = b[i];
        i += 1;
        if c == 10 {
            line += 1;
            start = i;
            character = 0;
            assert(b@.subrange(start as int, i as int) =~= Seq::empty());
        } else if !(0x80 <= c && c <= 0xbf) {
            character += 1;
        }
    }
    proof {
        if start > 0 {
            lemma_line_start_unique(b@, line as int, start as int);
        }
    }
    Position { line, character }
}

/// The first newline at or after `i`, or the end.
pub open spec fn line_end_from(b: Seq<u8>, i: int) -> int
    decreases b.len() - i,
{
    if i >= b.len() || b[i] == 10u8 {
        i
    } else {
        line_end_from(b, i + 1)
    }
}

/// Where line `row` ends, its newline not counted.
pub open spec fn line_end(b: Seq<u8>, row: int) -> int {
    line_end_from(b, line_start(b, row))
}

/// Where line `row` ends, its newline not counted.
pub fn end_of_line(b: &[u8], row: usize) -> (r: usize)
    ensures
        r == line_end(b@, row as int),
        r <= b@.len(),
{
    let from: usize = start_of_line(b, row);
    let mut i: usize = from;
    while i < b.len() && b[i] != 10
        invariant
            i <= b@.len(),
            line_end_from(b@, from as int) == line_end_from(b@, i as int),
        decreases b@.len() - i,
    {
        i += 1;
    }
    i
}

/// The two parts of a text on either side of boundary `o`.
pub open spec fn parts_at(s: Seq<char>, o: int) -> (Seq<char>, Seq<char>) {
    (decode_utf8(bytes(s).subrange(0, o)), decode_utf8(bytes(s).subrange(o, bytes(s).len() as int)))
}

/// The parts make up the text, and their bytes are those before and after `o`.
pub proof fn lemma_parts_at(s: Seq<char>, o: int)
    requires
        on_boundary(s, o),
    ensures
        parts_at(s, o).0 + parts_at(s, o).1 == s,
        bytes(parts_at(s, o).0) == bytes(s).subrange(0, o),
        bytes(parts_at(s, o).1) == bytes(s).subrange(o, bytes(s).len() as int),
{
    let b = bytes(s);
    encode_utf8_valid_utf8(s);
    lemma_boundary_in_range(s, o);
    valid_utf8_split(b, o);
    decode_utf8_split(b, o);
    encode_utf8_decode_utf8(s);
    decode_utf8_encode_utf8(b.subrange(0, o));
    decode_utf8_encode_utf8(b.subrange(o, b.len() as int));
}

/// The text before byte `offset`, which may lie inside a character or past the end.
pub open spec fn text_before(s: Seq<char>, offset: int) -> Seq<char> {
    parts_at(s, floor_boundary(s, offset)).0
}

/// The text before byte `offset`, which may lie inside a character or past the end.
pub fn before(s: &str, offset: usize) -> (r: &str)
    ensures
        r@ == text_before(s@, offset as int),
        bytes(r@).len() == floor_boundary(s@, offset as int),
{
    let at: usize = floor_char_boundary(s, offset);
    proof {
        lemma_floor_boundary(s@, offset as int);
        lemma_parts_at(s@, at as int);
    }
    let r = split(s, at).0;
    proof {
        lemma_bytes_injective(r@, parts_at(s@, at as int).0);
    }
    r
}

/// A boundary of a text is one of what follows an earlier boundary.
pub proof fn lemma_boundary_shift(s: Seq<char>, a: int, b: int, rest: Seq<char>)
    requires
        on_boundary(s, a),
        on_boundary(s, b),
        a <= b,
        bytes(rest) == bytes(s).subrange(a, bytes(s).len() as int),
    ensures
        on_boundary(rest, b - a),
{
    encode_utf8_valid_utf8(s);
    encode_utf8_valid_utf8(rest);
    lemma_boundary_in_range(s, a);
    lemma_boundary_in_range(s, b);
    lemma_ends_are_boundaries(rest);
    if b < bytes(s).len() {
        is_char_boundary_iff_not_is_continuation_byte(bytes(s), b);
        is_char_boundary_iff_not_is_continuation_byte(bytes(rest), b - a);
        assert(bytes(rest)[b - a] == bytes(s)[b]);
    }
}

/// The text between two boundaries; none where an offset is no boundary or the second
/// comes before the first.
pub open spec fn slice_of(s: Seq<char>, start: int, end: int) -> Option<Seq<char>> {
    if start <= end && on_boundary(s, start) && on_boundary(s, end) {
        Some(parts_at(parts_at(s, start).1, end - start).0)
    } else {
        None
    }
}

/// The text between two boundaries.
pub fn slice(s: &str, start: usize, end: usize) -> (r: Option<&str>)
    ensures
        match r {
            Some(t) => slice_of(s@, start as int, end as int) == Some(t@),
            None => slice_of(s@, start as int, end as int) is None,
        },
{
    proof {
        lemma_floor_boundary(s@, start as int);
        lemma_floor_boundary(s@, end as int);
    }
    if start > end || floor_char_boundary(s, start) != start || floor_char_boundary(s, end) != end {
        return None;
    }
    let rest = split(s, start).1;
    proof {
        lemma_parts_at(s@, start as int);
        lemma_bytes_injective(rest@, parts_at(s@, start as int).1);
        lemma_boundary_shift(s@, start as int, end as int, rest@);
    }
    let r = split(rest, end - start).0;
    proof {
        lemma_parts_at(rest@, end - start);
        lemma_bytes_injective(r@, parts_at(rest@, end - start).0);
    }
    Some(r)
}

/// The bytes of the text between two boundaries are those between the two offsets.
pub proof fn lemma_slice_bytes(s: Seq<char>, start: int, end: int)
    requires
        slice_of(s, start, end) is Some,
    ensures
        bytes(slice_of(s, start, end)->0) == bytes(s).subrange(start, end),
        0 <= start <= end <= bytes(s).len(),
{
    let rest = parts_at(s, start).1;
    lemma_boundary_in_range(s, start);
    lemma_boundary_in_range(s, end);
    lemma_parts_at(s, start);
    lemma_boundary_shift(s, start, end, rest);
    lemma_parts_at(rest, end - start);
    assert(bytes(s).subrange(start, bytes(s).len() as int).subrange(0, end - start)
        =~= bytes(s).subrange(start, end));
}

/// The row of a byte begins at the start of the text or just after a newline, and no newline
/// stands between its beginning and the byte.
pub proof fn rows_begin_after_newlines(b: Seq<u8>, o: int)
    requires
        0 <= o <= b.len(),
    ensures
        ({
            let p = line_start(b, newlines(b.take(o)) as int);
            &&& 0 <= p <= o
            &&& p == 0 || b[p - 1] == 10u8
            &&& forall|i: int| p <= i < o ==> #[trigger] b[i] != 10u8
        }),
{
    let row = newlines(b.take(o)) as int;
    lemma_newlines_monotone(b, o, b.len() as int);
    assert(b.take(b.len() as int) =~= b);
    lemma_line_start(b, row);
    let p = line_start(b, row);
    if p > o {
        lemma_newlines_monotone(b, o, p - 1);
        lemma_newlines_step(b, p - 1);
    }
    assert forall|i: int| p <= i < o implies #[trigger] b[i] != 10u8 by {
        if b[i] == 10u8 {
            lemma_newlines_monotone(b, p, i);
            lemma_newlines_step(b, i);
            lemma_newlines_monotone(b, i + 1, o);
        }
    }
}

/// A row ends at the end of the text or at a newline, and no newline stands in it.
pub proof fn rows_end_at_newlines(b: Seq<u8>, from: int)
    requires
        0 <= from <= b.len(),
    ensures
        from <= line_end_from(b, from) <= b.len(),
        line_end_from(b, from) == b.len() || b[line_end_from(b, from)] == 10u8,
        forall|i: int| from <= i < line_end_from(b, from) ==> #[trigger] b[i] != 10u8,
    decreases b.len() - from,
{
    if from < b.len() && b[from] != 10u8 {
        rows_end_at_newlines(b, from + 1);
    }
}

proof fn lemma_starts_add(a: Seq<u8>, b: Seq<u8>)
    ensures
        starts(a + b) == starts(a) + starts(b),
    decreases b.len(),
{
    if b.len() == 0 {
        assert(a + b =~= a);
    } else {
        lemma_starts_add(a, b.drop_last());
        assert((a + b).drop_last() =~= a + b.drop_last());
    }
}

/// As many characters begin in the bytes of a text as it has.
pub proof fn characters_begin_once(s: Seq<char>)
    ensures
        starts(bytes(s)) == s.len(),
    decreases s.len(),
{
    if s.len() > 0 {
        let rest = s.drop_first();
        let b = bytes(s);
        characters_begin_once(rest);
        encode_utf8_valid_utf8(s);
        encode_utf8_first_scalar(s);
        let n = length_of_first_scalar(b);
        assert(pop_first_scalar(b) =~= bytes(rest));
        let first = b.take(n);
        assert(b =~= first + bytes(rest));
        lemma_starts_add(first, bytes(rest));
        reveal_with_fuel(starts, 5);
        assert(starts(first) == 1);
    }
}

/// The text before a place is what stands before it.
pub proof fn the_text_before_a_place(a: Seq<char>, b: Seq<char>)
    ensures
        text_before(a + b, bytes(a).len() as int) == a,
{
    let s = a + b;
    let o = bytes(a).len() as int;
    lemma_prefix_boundary(a, b);
    lemma_floor_boundary(s, o);
    lemma_parts_at(s, o);
    lemma_bytes_concat(a, b);
    assert(bytes(s).subrange(0, o) =~= bytes(a));
    lemma_bytes_injective(text_before(s, o), a);
}

} // verus!
