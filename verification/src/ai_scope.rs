//! Which part of the text an AI round works on, and where its answer lands.

use std::ops::Range;

use vstd::prelude::*;
use vstd::string::*;

use crate::offset;
use crate::offset::{bytes, floor_boundary, line_start, newlines, on_boundary};
use crate::path;

verus! {

/// How many lines on either side of the cursor belong to its paragraph.
pub const PARA_PAD: usize = 5;

/// What an AI round works on.
#[derive(Debug)]
pub enum AiScope {
    /// The selected text, as a byte range.
    Selection(Range<usize>),
    /// The cursor's paragraph, as a byte range.
    Paragraph(Range<usize>),
    /// The whole document in the editor.
    Document,
    /// New text at a byte offset; nothing that is there changes.
    Insert { at: usize },
    /// A file on disk.
    File(String),
}

/// The buttons from which a scope is chosen.
#[derive(Clone, Copy, PartialEq, Eq, Debug, Structural)]
pub enum ScopeChoice {
    Selection,
    Paragraph,
    Document,
    Insert,
}

/// Where the answer goes.
#[derive(Debug, PartialEq, Eq)]
pub enum Landing {
    /// Replaces this byte range of the editor's text.
    Replace(Range<usize>),
    /// Replaces all of the editor's text.
    WholeDocument,
    /// Goes in at this byte offset.
    Insert { at: usize },
    /// Is written back to this file.
    File(String),
}

impl Clone for AiScope {
    fn clone(&self) -> (r: Self)
        ensures
            r == *self,
    {
        match self {
            AiScope::Selection(range) => AiScope::Selection(range.start..range.end),
            AiScope::Paragraph(range) => AiScope::Paragraph(range.start..range.end),
            AiScope::Document => AiScope::Document,
            AiScope::Insert { at } => AiScope::Insert { at: *at },
            AiScope::File(p) => AiScope::File(p.clone()),
        }
    }
}

impl ScopeChoice {
    /// What the button says.
    pub open spec fn label_text(self) -> Seq<char> {
        match self {
            ScopeChoice::Selection => "选区"@,
            ScopeChoice::Paragraph => "光标段落"@,
            ScopeChoice::Document => "全文"@,
            ScopeChoice::Insert => "插入"@,
        }
    }

    /// What the button says.
    pub fn label(self) -> (r: &'static str)
        ensures
            r@ == self.label_text(),
    {
        match self {
            ScopeChoice::Selection => "选区",
            ScopeChoice::Paragraph => "光标段落",
            ScopeChoice::Document => "全文",
            ScopeChoice::Insert => "插入",
        }
    }
}

/// `l` is where an answer for `scope` goes while the editor shows `main_path`:
/// the file that is open in the editor counts as the editor's document.
pub open spec fn lands(scope: AiScope, main_path: Seq<char>, l: Landing) -> bool {
    match scope {
        AiScope::Selection(range) => l == Landing::Replace(range),
        AiScope::Paragraph(range) => l == Landing::Replace(range),
        AiScope::Document => l == Landing::WholeDocument,
        AiScope::Insert { at } => l == (Landing::Insert { at }),
        AiScope::File(p) => if path::same_path(p@, main_path) {
            l == Landing::WholeDocument
        } else {
            l matches Landing::File(q) && q@ == p@
        },
    }
}

/// Where an answer for `scope` goes while the editor shows `main_path`.
pub fn landing(scope: &AiScope, main_path: &str) -> (r: Landing)
    ensures
        lands(*scope, main_path@, r),
{
    match scope {
        AiScope::Selection(range) => Landing::Replace(range.start..range.end),
        AiScope::Paragraph(range) => Landing::Replace(range.start..range.end),
        AiScope::Document => Landing::WholeDocument,
        AiScope::Insert { at } => Landing::Insert { at: *at },
        AiScope::File(p) => {
            if path::is_same(p.as_str(), main_path) {
                Landing::WholeDocument
            } else {
                Landing::File(p.clone())
            }
        },
    }
}

/// The character boundary at or before `offset`, past the end counting as the end.
pub fn floor_char_boundary(text: &str, offset: usize) -> (r: usize)
    ensures
        r == floor_boundary(text@, offset as int),
{
    offset::floor_char_boundary(text, offset)
}

/// The row (the first is 0) that byte `offset` of `doc` is on.
pub open spec fn row_of(doc: Seq<char>, offset: int) -> nat {
    newlines(bytes(doc).take(floor_boundary(doc, offset)))
}

/// Where the paragraph around `cursor` begins: `pad` rows up, or at the top.
pub open spec fn paragraph_from(doc: Seq<char>, cursor: int, pad: int) -> int {
    line_start(bytes(doc), row_of(doc, cursor) - pad)
}

/// Where the paragraph around `cursor` ends: where the row after the `pad` rows
/// below begins, or at the end.
pub open spec fn paragraph_to(doc: Seq<char>, cursor: int, pad: int) -> int {
    if row_of(doc, cursor) + pad + 1 <= newlines(bytes(doc)) {
        line_start(bytes(doc), row_of(doc, cursor) + pad + 1)
    } else {
        bytes(doc).len() as int
    }
}

/// The cursor's row with `pad` rows on either side, as a byte range.
pub fn paragraph_range(doc: &str, cursor: usize, pad: usize) -> (r: Range<usize>)
    ensures
        r.start == paragraph_from(doc@, cursor as int, pad as int),
        r.end == paragraph_to(doc@, cursor as int, pad as int),
{
    let at: usize = floor_char_boundary(doc, cursor);
    proof {
        offset::lemma_floor_boundary(doc@, cursor as int);
    }
    let b = doc.as_bytes();
    let row: usize = offset::count_newlines(b, at);
    let total: usize = offset::count_newlines(b, b.len());
    assert(b@.take(b@.len() as int) =~= b@);
    proof {
        offset::lemma_newlines_monotone(b@, at as int, b@.len() as int);
    }
    let first: usize = if row > pad {
        row - pad
    } else {
        0
    };
    let from: usize = offset::start_of_line(b, first);
    let to: usize = if pad < total - row {
        offset::start_of_line(b, row + pad + 1)
    } else {
        b.len()
    };
    from..to
}

/// The line (the first is 1) that byte `offset` of `doc` is on.
pub fn line_at(doc: &str, offset: usize) -> (r: usize)
    requires
        bytes(doc@).len() < usize::MAX,
    ensures
        r == row_of(doc@, offset as int) + 1,
{
    let at: usize = floor_char_boundary(doc, offset);
    proof {
        offset::lemma_floor_boundary(doc@, offset as int);
    }
    1 + offset::count_newlines(doc.as_bytes(), at)
}

/// The byte whose line is the last of a range: the one before its end, unless
/// the range is empty.
pub open spec fn span_end(doc: Seq<char>, range: Range<usize>) -> int {
    let end = floor_boundary(doc, range.end as int);
    if end > range.start {
        end - 1
    } else {
        end
    }
}

/// The first and last line (counted from 1) that `range` covers.
pub fn line_span(doc: &str, range: &Range<usize>) -> (r: (usize, usize))
    requires
        bytes(doc@).len() < usize::MAX,
    ensures
        r.0 == row_of(doc@, range.start as int) + 1,
        r.1 == row_of(doc@, span_end(doc@, *range)) + 1,
{
    let from: usize = line_at(doc, range.start);
    let end: usize = floor_char_boundary(doc, range.end);
    let end: usize = if end > range.start {
        end - 1
    } else {
        end
    };
    (from, line_at(doc, end))
}

/// Where a replaced range begins and ends once both ends are on boundaries.
pub open spec fn splice_start(doc: Seq<char>, range: Range<usize>) -> int {
    floor_boundary(doc, range.start as int)
}

pub open spec fn splice_end(doc: Seq<char>, range: Range<usize>) -> int {
    let end = floor_boundary(doc, range.end as int);
    if end < splice_start(doc, range) {
        splice_start(doc, range)
    } else {
        end
    }
}

/// `doc` with `range` replaced by `text`, and the caret just after `text`.
pub fn splice_at(doc: &str, range: Range<usize>, text: &str) -> (r: (String, usize))
    requires
        bytes(doc@).len() + bytes(text@).len() <= usize::MAX,
    ensures
        bytes(r.0@) == bytes(doc@).take(splice_start(doc@, range)) + bytes(text@) + bytes(
            doc@,
        ).skip(splice_end(doc@, range)),
        r.1 == splice_start(doc@, range) + bytes(text@).len(),
{
    let start: usize = floor_char_boundary(doc, range.start);
    let end: usize = floor_char_boundary(doc, range.end);
    let end: usize = if end < start {
        start
    } else {
        end
    };
    proof {
        offset::lemma_floor_boundary(doc@, range.start as int);
        offset::lemma_floor_boundary(doc@, range.end as int);
    }
    let head = offset::split(doc, start).0;
    let tail = offset::split(doc, end).1;
    let mut out = String::new();
    out.append(head);
    out.append(text);
    out.append(tail);
    proof {
        assert(Seq::<char>::empty() + head@ =~= head@);
        offset::lemma_bytes_concat(head@, text@);
        offset::lemma_bytes_concat(head@ + text@, tail@);
    }
    (out, start + offset::size(text))
}

/// Putting the replaced piece back where its replacement stands gives the document again.
pub proof fn splices_can_be_undone(
    doc: Seq<char>,
    range: Range<usize>,
    text: Seq<char>,
    out: Seq<char>,
    piece: Seq<char>,
    place: Range<usize>,
    back: Seq<char>,
)
    requires
        bytes(out) == bytes(doc).take(splice_start(doc, range)) + bytes(text) + bytes(doc).skip(
            splice_end(doc, range),
        ),
        bytes(piece) == bytes(doc).subrange(splice_start(doc, range), splice_end(doc, range)),
        place.start == splice_start(doc, range),
        place.end == splice_start(doc, range) + bytes(text).len(),
        bytes(back) == bytes(out).take(splice_start(out, place)) + bytes(piece) + bytes(out).skip(
            splice_end(out, place),
        ),
    ensures
        back == doc,
{
    let b = bytes(doc);
    let (start, end) = (splice_start(doc, range), splice_end(doc, range));
    offset::lemma_floor_boundary(doc, range.start as int);
    offset::lemma_floor_boundary(doc, range.end as int);
    offset::lemma_parts_at(doc, start);
    offset::lemma_parts_at(doc, end);
    let head = offset::parts_at(doc, start).0;
    let tail = offset::parts_at(doc, end).1;
    offset::lemma_bytes_concat(head, text);
    offset::lemma_bytes_concat(head + text, tail);
    assert(bytes(out) =~= bytes(head + text + tail));
    offset::lemma_bytes_injective(out, head + text + tail);
    assert(out =~= head + (text + tail));
    offset::lemma_prefix_boundary(head, text + tail);
    offset::lemma_prefix_boundary(head + text, tail);
    offset::lemma_floor_boundary(out, place.start as int);
    offset::lemma_floor_boundary(out, place.end as int);
    assert(bytes(out).take(start) =~= b.take(start));
    assert(bytes(out).skip(start + bytes(text).len()) =~= b.skip(end));
    assert(bytes(back) =~= b);
    offset::lemma_bytes_injective(back, doc);
}

/// The file that is open in the editor is the editor's document, under whatever
/// spelling of its path.
pub proof fn open_file_is_the_document(scope_path: String, main_path: Seq<char>, l: Landing)
    requires
        path::same_path(scope_path@, main_path),
        lands(AiScope::File(scope_path), main_path, l),
    ensures
        l == Landing::WholeDocument,
{
}

/// A row begins at or before any of its bytes.
proof fn lemma_row_begins_before(b: Seq<u8>, o: int)
    requires
        0 <= o <= b.len(),
    ensures
        line_start(b, newlines(b.take(o)) as int) <= o,
{
    let row = newlines(b.take(o)) as int;
    offset::lemma_newlines_monotone(b, o, b.len() as int);
    assert(b.take(b.len() as int) =~= b);
    offset::lemma_line_start(b, row);
    let p = line_start(b, row);
    if p > o {
        offset::lemma_newlines_monotone(b, o, p - 1);
        offset::lemma_newlines_step(b, p - 1);
    }
}

/// An earlier row begins earlier.
proof fn lemma_rows_in_order(b: Seq<u8>, r: int, s: int)
    requires
        0 <= r <= s <= newlines(b),
    ensures
        line_start(b, r) <= line_start(b, s),
{
    offset::lemma_line_start(b, r);
    offset::lemma_line_start(b, s);
    let p = line_start(b, r);
    let q = line_start(b, s);
    if q < p {
        offset::lemma_newlines_monotone(b, q, p - 1);
        offset::lemma_newlines_step(b, p - 1);
    }
}

/// The paragraph holds the cursor, and both its ends are character boundaries.
pub proof fn paragraph_holds_the_cursor(doc: Seq<char>, cursor: int, pad: int)
    requires
        0 <= pad,
    ensures
        0 <= paragraph_from(doc, cursor, pad) <= floor_boundary(doc, cursor),
        floor_boundary(doc, cursor) <= paragraph_to(doc, cursor, pad) <= bytes(doc).len(),
        on_boundary(doc, paragraph_from(doc, cursor, pad)),
        on_boundary(doc, paragraph_to(doc, cursor, pad)),
{
    let b = bytes(doc);
    let at = floor_boundary(doc, cursor);
    let row = row_of(doc, cursor) as int;
    offset::lemma_floor_boundary(doc, cursor);
    offset::lemma_ends_are_boundaries(doc);
    offset::lemma_newlines_monotone(b, at, b.len() as int);
    assert(b.take(b.len() as int) =~= b);
    lemma_row_begins_before(b, at);
    if row - pad > 0 {
        lemma_rows_in_order(b, row - pad, row);
        offset::lemma_line_start(b, row - pad);
        offset::lemma_line_start_boundary(doc, row - pad);
    }
    if row + pad + 1 <= newlines(b) {
        let to = line_start(b, row + pad + 1);
        offset::lemma_line_start(b, row + pad + 1);
        offset::lemma_line_start_boundary(doc, row + pad + 1);
        if to < at {
            offset::lemma_newlines_monotone(b, to, at);
        }
    }
}

/// The paragraph begins on the row `pad` rows above the cursor's, or on the first.
pub proof fn paragraph_begins_on_a_row(doc: Seq<char>, cursor: int, pad: int)
    requires
        0 <= pad,
    ensures
        row_of(doc, paragraph_from(doc, cursor, pad)) == if row_of(doc, cursor) > pad {
            row_of(doc, cursor) - pad
        } else {
            0
        },
{
    paragraph_holds_the_cursor(doc, cursor, pad);
    let b = bytes(doc);
    let at = floor_boundary(doc, cursor);
    let from = paragraph_from(doc, cursor, pad);
    offset::lemma_floor_boundary(doc, cursor);
    offset::lemma_floor_boundary(doc, from);
    offset::lemma_newlines_monotone(b, at, b.len() as int);
    assert(b.take(b.len() as int) =~= b);
    let row = row_of(doc, cursor) as int;
    if row - pad > 0 {
        offset::lemma_line_start(b, row - pad);
    } else {
        assert(b.take(0) =~= Seq::empty());
    }
}

/// An insertion changes nothing that was there: the text before the place and
/// the text after it both stay, with the new text between them.
pub proof fn inserting_keeps_the_document(doc: Seq<char>, at: usize, text: Seq<char>, out: Seq<char>)
    requires
        bytes(out) == bytes(doc).take(splice_start(doc, (at..at))) + bytes(text) + bytes(doc).skip(
            splice_end(doc, (at..at)),
        ),
    ensures
        exists|before: Seq<char>, after: Seq<char>|
            before + after == doc && #[trigger] (before + text + after) == out && bytes(before).len()
                == floor_boundary(doc, at as int),
{
    let o = floor_boundary(doc, at as int);
    offset::lemma_floor_boundary(doc, at as int);
    let (before, after) = offset::parts_at(doc, o);
    offset::lemma_parts_at(doc, o);
    offset::lemma_bytes_concat(before, text);
    offset::lemma_bytes_concat(before + text, after);
    assert(bytes(doc).take(o) =~= bytes(doc).subrange(0, o));
    assert(bytes(doc).skip(o) =~= bytes(doc).subrange(o, bytes(doc).len() as int));
    offset::lemma_bytes_injective(before + text + after, out);
}

/// The paragraph ends where the row after the `pad` rows below the cursor's begins, or at
/// the end: as many newlines stand before its end as rows lie above that row.
pub proof fn paragraph_ends_on_a_row(doc: Seq<char>, cursor: int, pad: int)
    requires
        0 <= pad,
    ensures
        ({
            let b = bytes(doc);
            let to = paragraph_to(doc, cursor, pad);
            &&& 0 <= to <= b.len()
            &&& to == b.len() || newlines(b.take(to)) == row_of(doc, cursor) + pad + 1
            &&& to < b.len() ==> to > 0 && b[to - 1] == 10u8
            &&& to == b.len() ==> newlines(b) <= row_of(doc, cursor) + pad + 1
        }),
{
    let b = bytes(doc);
    let row = row_of(doc, cursor) as int;
    if row + pad + 1 <= newlines(b) {
        offset::lemma_line_start(b, row + pad + 1);
        let to = line_start(b, row + pad + 1);
        if to == b.len() {
            assert(b.take(to) =~= b);
        }
    }
}

/// An answer lands where the round worked: in the selection, in the paragraph, in the whole
/// document, at the place of an insertion, or in the file that was chosen.
pub proof fn answers_land_where_the_round_worked(
    main_path: Seq<char>,
    range: Range<usize>,
    at: usize,
    file: String,
    l: Landing,
)
    ensures
        lands(AiScope::Selection(range), main_path, l) ==> l == Landing::Replace(range),
        lands(AiScope::Paragraph(range), main_path, l) ==> l == Landing::Replace(range),
        lands(AiScope::Document, main_path, l) ==> l == Landing::WholeDocument,
        lands(AiScope::Insert { at }, main_path, l) ==> l == (Landing::Insert { at }),
        lands(AiScope::File(file), main_path, l) && !path::same_path(file@, main_path) ==> (
        l matches Landing::File(q) && q@ == file@),
{
}

} // verus!
