//! Line diffs: cutting the changes between two texts into blocks, and building
//! the text in which some of the blocks were accepted and others were not.

use vstd::prelude::*;
use vstd::string::*;

use crate::text;
use crate::text::{ends_in, joined, occurs, views};

verus! {

/// What becomes of a line.
#[derive(Clone, Copy, PartialEq, Eq, Debug, Structural)]
pub enum LineTag {
    /// It stands in both texts.
    Equal,
    /// It stands in the old text alone.
    Delete,
    /// It stands in the new text alone.
    Insert,
}

/// A line of either text, with its line ending.
#[derive(Debug)]
pub struct LineChange {
    pub tag: LineTag,
    pub text: String,
}

/// A line of either text, with its line ending.
pub struct Change {
    pub tag: LineTag,
    pub text: Seq<char>,
}

impl View for LineChange {
    type V = Change;

    open spec fn view(&self) -> Change {
        Change { tag: self.tag, text: self.text@ }
    }
}

pub open spec fn changes_of(v: Seq<LineChange>) -> Seq<Change> {
    v.map_values(|c: LineChange| c@)
}

/// A line of the kind that a block shows.
#[derive(Clone, Copy, PartialEq, Eq, Debug, Structural)]
pub enum DiffKind {
    /// A new line.
    Add,
    /// A line that goes away.
    Del,
}

/// A changed line without its line ending.
#[derive(Clone, Debug)]
pub struct DiffLine {
    pub kind: DiffKind,
    pub text: String,
}

/// A block: changed lines with no unchanged line between them.
#[derive(Clone, Debug)]
pub struct Hunk {
    pub lines: Vec<DiffLine>,
}

/// `s` ends a line at `i`: with a newline, or with a carriage return that no
/// newline follows.
pub open spec fn breaks_at(s: Seq<char>, i: int) -> bool {
    0 <= i < s.len() && (s[i] == '\n' || (s[i] == '\r' && !(i + 1 < s.len() && s[i + 1] == '\n')))
}

/// The first place at or after `i` where a line of `s` ends, or the end.
pub open spec fn next_break(s: Seq<char>, i: int) -> int
    decreases s.len() - i,
{
    if i >= s.len() || breaks_at(s, i) {
        i
    } else {
        next_break(s, i + 1)
    }
}

/// The lines of a text, each with its line ending.
pub open spec fn line_tokens(s: Seq<char>) -> Seq<Seq<char>>
    decreases s.len(),
{
    let e = next_break(s, 0);
    if s.len() == 0 {
        Seq::empty()
    } else if e >= s.len() || e < 0 {
        seq![s]
    } else {
        seq![s.take(e + 1)] + line_tokens(s.skip(e + 1))
    }
}

/// The texts of the changes that are not `other`, in order.
pub open spec fn side(c: Seq<Change>, other: LineTag) -> Seq<Seq<char>>
    decreases c.len(),
{
    if c.len() == 0 {
        Seq::empty()
    } else if c.last().tag == other {
        side(c.drop_last(), other)
    } else {
        side(c.drop_last(), other).push(c.last().text)
    }
}

/// No line changed.
pub open spec fn all_equal(c: Seq<Change>) -> bool {
    forall|i: int| 0 <= i < c.len() ==> (#[trigger] c[i]).tag == LineTag::Equal
}

/// `c` turns `old_text` into `new_text`: the lines which are not insertions are
/// those of the old text, and the lines which are not deletions those of the
/// new one. Where the two are the same no line changes.
pub open spec fn is_line_diff(
    old_text: Seq<char>,
    new_text: Seq<char>,
    c: Seq<Change>,
) -> bool {
    &&& side(c, LineTag::Insert) == line_tokens(old_text)
    &&& side(c, LineTag::Delete) == line_tokens(new_text)
    &&& old_text == new_text ==> all_equal(c)
}

/// The line diff of two texts that `similar::TextDiff::from_lines` gives.
pub uninterp spec fn line_changes(old_text: Seq<char>, new_text: Seq<char>) -> Seq<Change>;

/// Calls `similar::TextDiff::from_lines` and hands out what `iter_all_changes`
/// walks through. Of the diff itself it claims that it depends on the two texts
/// alone; that the lines which are not insertions are the lines of the old text
/// in order, and those which are not deletions the lines of the new text; and
/// that a text compared with itself has no change. Which of several diffs with
/// these properties it is, is not said.
#[verifier::external_body]
fn diff_lines(old_text: &str, new_text: &str) -> (r: Vec<LineChange>)
    ensures
        changes_of(r@) == line_changes(old_text@, new_text@),
        is_line_diff(old_text@, new_text@, changes_of(r@)),
{
    similar::TextDiff::from_lines(old_text, new_text)
        .iter_all_changes()
        .map(|c| LineChange {
            tag: match c.tag() {
                similar::ChangeTag::Equal => LineTag::Equal,
                similar::ChangeTag::Delete => LineTag::Delete,
                similar::ChangeTag::Insert => LineTag::Insert,
            },
            text: c.value().to_string(),
        })
        .collect()
}

pub open spec fn is_line_end(c: char) -> bool {
    c == '\n' || c == '\r'
}

/// A line without its line ending.
pub open spec fn bare(s: Seq<char>) -> Seq<char>
    decreases s.len(),
{
    if s.len() > 0 && is_line_end(s.last()) {
        bare(s.drop_last())
    } else {
        s
    }
}

fn line_of(s: &str) -> (r: String)
    ensures
        r@ == bare(s@),
{
    let v = text::chars_of(s);
    let mut n: usize = v.len();
    assert(v@.take(n as int) =~= v@);
    while n > 0 && (v[n - 1] == '\n' || v[n - 1] == '\r')
        invariant
            n <= v@.len(),
            bare(v@) == bare(v@.take(n as int)),
        decreases n,
    {
        assert(v@.take(n as int).drop_last() =~= v@.take(n - 1));
        n -= 1;
    }
    assert(bare(v@.take(n as int)) == v@.take(n as int));
    text::text_of(&v, 0, n)
}

/// A changed line as a block shows it.
pub struct ShownLine {
    pub kind: DiffKind,
    pub text: Seq<char>,
}

impl View for DiffLine {
    type V = ShownLine;

    open spec fn view(&self) -> ShownLine {
        ShownLine { kind: self.kind, text: self.text@ }
    }
}

impl View for Hunk {
    type V = Seq<ShownLine>;

    open spec fn view(&self) -> Seq<ShownLine> {
        self.lines@.map_values(|l: DiffLine| l@)
    }
}

pub open spec fn hunk_views(v: Seq<Hunk>) -> Seq<Seq<ShownLine>> {
    v.map_values(|h: Hunk| h@)
}

/// How a block shows the change `c`.
pub open spec fn show(c: Change) -> ShownLine {
    ShownLine {
        kind: if c.tag == LineTag::Insert {
            DiffKind::Add
        } else {
            DiffKind::Del
        },
        text: bare(c.text),
    }
}

/// The last of `c` is a change.
pub open spec fn ends_changed(c: Seq<Change>) -> bool {
    c.len() > 0 && c.last().tag != LineTag::Equal
}

/// The blocks: the longest runs of changes with no unchanged line in between.
pub open spec fn blocks(c: Seq<Change>) -> Seq<Seq<ShownLine>>
    decreases c.len(),
{
    if c.len() == 0 {
        Seq::empty()
    } else {
        let before = blocks(c.drop_last());
        let line = show(c.last());
        if c.last().tag == LineTag::Equal {
            before
        } else if ends_changed(c.drop_last()) {
            before.drop_last().push(before.last().push(line))
        } else {
            before.push(seq![line])
        }
    }
}

impl Hunk {
    /// How many lines the block adds.
    pub fn added(&self) -> (r: usize)
        ensures
            r == self@.filter(|l: ShownLine| l.kind == DiffKind::Add).len(),
    {
        self.count(DiffKind::Add)
    }

    /// How many lines the block takes away.
    pub fn removed(&self) -> (r: usize)
        ensures
            r == self@.filter(|l: ShownLine| l.kind == DiffKind::Del).len(),
    {
        self.count(DiffKind::Del)
    }

    fn count(&self, kind: DiffKind) -> (r: usize)
        ensures
            r == self@.filter(|l: ShownLine| l.kind == kind).len(),
    {
        let mut n: usize = 0;
        let mut i: usize = 0;
        let ghost pred = |l: ShownLine| l.kind == kind;
        proof {
            reveal(Seq::filter);
        }
        while i < self.lines.len()
            invariant
                n <= i <= self.lines@.len(),
                pred == (|l: ShownLine| l.kind == kind),
                n == self@.take(i as int).filter(pred).len(),
            decreases self.lines@.len() - i,
        {
            proof {
                reveal(Seq::filter);
                assert(self@.take(i + 1).drop_last() =~= self@.take(i as int));
                assert(self@.take(i + 1).last() == self.lines@[i as int]@);
            }
            if self.lines[i].kind == kind {
                n += 1;
            }
            i += 1;
        }
        assert(self@.take(i as int) =~= self@);
        n
    }
}

proof fn lemma_blocks_nonempty(c: Seq<Change>)
    requires
        ends_changed(c),
    ensures
        blocks(c).len() > 0,
    decreases c.len(),
{
    if ends_changed(c.drop_last()) {
        lemma_blocks_nonempty(c.drop_last());
    }
}

/// The blocks of a line diff.
pub fn hunks_of(changes: &Vec<LineChange>) -> (r: Vec<Hunk>)
    ensures
        hunk_views(r@) == blocks(changes_of(changes@)),
{
    let ghost c = changes_of(changes@);
    let mut out: Vec<Hunk> = Vec::new();
    let mut current: Vec<DiffLine> = Vec::new();
    let mut i: usize = 0;
    assert(hunk_views(out@) =~= blocks(c.take(0)));
    while i < changes.len()
        invariant
            i <= changes@.len(),
            c == changes_of(changes@),
            current@.len() > 0 <==> ends_changed(c.take(i as int)),
            current@.len() == 0 ==> blocks(c.take(i as int)) == hunk_views(out@),
            current@.len() > 0 ==> blocks(c.take(i as int)) == hunk_views(out@).push(
                current@.map_values(|l: DiffLine| l@),
            ),
        decreases changes@.len() - i,
    {
        let ghost now = c.take(i as int);
        let ghost next = c.take(i + 1);
        let ghost shown = current@.map_values(|l: DiffLine| l@);
        let ghost before = out@;
        assert(next.drop_last() =~= now);
        assert(next.last() == changes@[i as int]@);
        match changes[i].tag {
            LineTag::Equal => {
                if current.len() > 0 {
                    let mut lines: Vec<DiffLine> = Vec::new();
                    std::mem::swap(&mut lines, &mut current);
                    let h = Hunk { lines };
                    assert(h@ =~= shown);
                    out.push(h);
                    assert(hunk_views(out@) =~= hunk_views(before).push(shown));
                }
            },
            tag => {
                let kind = if let LineTag::Insert = tag {
                    DiffKind::Add
                } else {
                    DiffKind::Del
                };
                let line = DiffLine { kind, text: line_of(changes[i].text.as_str()) };
                current.push(line);
                assert(line@ == show(next.last()));
                assert(current@.map_values(|l: DiffLine| l@) =~= shown.push(line@));
                proof {
                    if ends_changed(now) {
                        assert(blocks(now).drop_last() =~= hunk_views(out@));
                        assert(blocks(now).last() == shown);
                    } else {
                        assert(shown.push(line@) =~= seq![line@]);
                    }
                }
            },
        }
        i += 1;
    }
    assert(c.take(i as int) =~= c);
    if current.len() > 0 {
        let ghost shown = current@.map_values(|l: DiffLine| l@);
        let ghost before = out@;
        let h = Hunk { lines: current };
        assert(h@ =~= shown);
        out.push(h);
        assert(hunk_views(out@) =~= hunk_views(before).push(shown));
    }
    out
}

/// The blocks in which `new_text` differs from `old_text`.
pub fn hunks(old_text: &str, new_text: &str) -> (r: Vec<Hunk>)
    ensures
        hunk_views(r@) == blocks(line_changes(old_text@, new_text@)),
        r@.len() == 0 <==> old_text@ == new_text@,
        is_line_diff(old_text@, new_text@, line_changes(old_text@, new_text@)),
{
    let changes = diff_lines(old_text, new_text);
    proof {
        no_blocks_without_changes(old_text@, new_text@, changes_of(changes@));
    }
    hunks_of(&changes)
}

/// Block `k` is accepted; one that has no mark is.
pub open spec fn accepts(accepted: Seq<bool>, k: int) -> bool {
    k >= accepted.len() || accepted[k]
}

/// None of the first `n` blocks is accepted.
pub open spec fn rejects_all(accepted: Seq<bool>, n: int) -> bool {
    forall|k: int| 0 <= k < n ==> !#[trigger] accepts(accepted, k)
}

/// The lines of the text in which the accepted blocks were applied, without
/// their line endings.
pub open spec fn kept(c: Seq<Change>, accepted: Seq<bool>) -> Seq<Seq<char>>
    decreases c.len(),
{
    if c.len() == 0 {
        Seq::empty()
    } else {
        let before = kept(c.drop_last(), accepted);
        let on = accepts(accepted, blocks(c).len() - 1);
        let keep = match c.last().tag {
            LineTag::Equal => true,
            LineTag::Delete => !on,
            LineTag::Insert => on,
        };
        if keep {
            before.push(bare(c.last().text))
        } else {
            before
        }
    }
}

/// The lines up to the last one that is not empty.
pub open spec fn without_blank_end(lines: Seq<Seq<char>>) -> Seq<Seq<char>>
    decreases lines.len(),
{
    if lines.len() > 0 && lines.last().len() == 0 {
        without_blank_end(lines.drop_last())
    } else {
        lines
    }
}

/// The line ending that a text uses.
pub open spec fn line_ending(s: Seq<char>) -> Seq<char> {
    if occurs(s, seq!['\r', '\n']) {
        seq!['\r', '\n']
    } else {
        seq!['\n']
    }
}

/// Lines as one text, with line ending `eol`, and one at the end if `trailing`.
pub open spec fn laid_out(lines: Seq<Seq<char>>, eol: Seq<char>, trailing: bool) -> Seq<char> {
    if trailing && lines.len() > 0 {
        joined(lines, eol) + eol
    } else {
        joined(lines, eol)
    }
}

/// The lines of a text that ends with a line ending if `trailing`: empty lines can stand
/// at the end of no other.
pub open spec fn lines_in(lines: Seq<Seq<char>>, trailing: bool) -> Seq<Seq<char>> {
    if trailing {
        lines
    } else {
        without_blank_end(lines)
    }
}

/// The text that comes of `old_text` when the accepted blocks of the diff `c`
/// are applied. Where none is accepted it is `old_text` to the letter; else its lines
/// end as those of `old_text` do, the last one too.
pub open spec fn rebuilt(old_text: Seq<char>, c: Seq<Change>, accepted: Seq<bool>) -> Seq<char> {
    if rejects_all(accepted, blocks(c).len() as int) {
        old_text
    } else {
        laid_out(
            lines_in(kept(c, accepted), ends_in(old_text, '\n')),
            line_ending(old_text),
            ends_in(old_text, '\n'),
        )
    }
}

fn is_accepted(accepted: &[bool], k: usize) -> (r: bool)
    ensures
        r == accepts(accepted@, k as int),
{
    if k < accepted.len() {
        accepted[k]
    } else {
        true
    }
}

/// The text that comes of `old_text` when the accepted blocks are applied.
pub fn rebuild(old_text: &str, changes: &Vec<LineChange>, accepted: &[bool]) -> (r: String)
    ensures
        r@ == rebuilt(old_text@, changes_of(changes@), accepted@),
{
    let ghost c = changes_of(changes@);
    let mut lines: Vec<String> = Vec::new();
    let mut found: usize = 0;
    let mut in_block = false;
    let mut any = false;
    let mut i: usize = 0;
    assert(views(lines@) =~= kept(c.take(0), accepted@));
    while i < changes.len()
        invariant
            found <= i <= changes@.len(),
            c == changes_of(changes@),
            in_block == ends_changed(c.take(i as int)),
            found == blocks(c.take(i as int)).len(),
            any == !rejects_all(accepted@, found as int),
            views(lines@) == kept(c.take(i as int), accepted@),
        decreases changes@.len() - i,
    {
        let ghost now = c.take(i as int);
        let ghost next = c.take(i + 1);
        let ghost prev = lines@;
        assert(next.drop_last() =~= now);
        assert(next.last() == changes@[i as int]@);
        proof {
            if ends_changed(now) {
                lemma_blocks_nonempty(now);
            }
        }
        let line = line_of(changes[i].text.as_str());
        match changes[i].tag {
            LineTag::Equal => {
                in_block = false;
                lines.push(line);
                assert(views(lines@) =~= views(prev).push(line@));
            },
            tag => {
                if !in_block {
                    in_block = true;
                    let ghost n = found;
                    found += 1;
                    if is_accepted(accepted, found - 1) {
                        any = true;
                        assert(accepts(accepted@, n as int));
                    } else {
                        proof {
                            if !any {
                                assert(rejects_all(accepted@, n as int));
                                assert(rejects_all(accepted@, found as int));
                            } else {
                                assert(exists|k: int| 0 <= k < n && accepts(accepted@, k));
                                let k = choose|k: int| 0 <= k < n && accepts(accepted@, k);
                                assert(0 <= k < found && accepts(accepted@, k));
                            }
                        }
                    }
                }
                let on = is_accepted(accepted, found - 1);
                let keep = if let LineTag::Insert = tag {
                    on
                } else {
                    !on
                };
                if keep {
                    lines.push(line);
                    assert(views(lines@) =~= views(prev).push(line@));
                }
            },
        }
        i += 1;
    }
    assert(c.take(i as int) =~= c);
    if !any {
        return old_text.to_owned();
    }
    let trailing = text::ends_with(old_text, '\n');
    let mut n: usize = lines.len();
    assert(views(lines@).take(n as int) =~= views(lines@));
    while !trailing && n > 0 && lines[n - 1].as_str().is_empty()
        invariant
            n <= lines@.len(),
            trailing ==> n == lines@.len(),
            without_blank_end(views(lines@)) == without_blank_end(views(lines@).take(n as int)),
        decreases n,
    {
        assert(views(lines@).take(n as int).last() == lines@[n - 1]@);
        assert(views(lines@).take(n as int).drop_last() =~= views(lines@).take(n - 1));
        n -= 1;
    }
    assert(n > 0 ==> views(lines@).take(n as int).last() == lines@[n - 1]@);
    let crlf = text::contains(old_text, "\r\n");
    proof {
        reveal_strlit("\r\n");
        reveal_strlit("\n");
        assert("\r\n"@ =~= seq!['\r', '\n']);
        assert("\n"@ =~= seq!['\n']);
    }
    let eol = if crlf {
        "\r\n"
    } else {
        "\n"
    };
    let mut out = text::join(&lines, n, eol);
    if trailing && n > 0 {
        out.append(eol);
    }
    out
}

/// The text that comes of `old_text` when those blocks of changes towards
/// `new_text` are applied that `accepted` marks (or has no mark for).
pub fn apply_hunks(old_text: &str, new_text: &str, accepted: &[bool]) -> (r: String)
    ensures
        r@ == rebuilt(old_text@, line_changes(old_text@, new_text@), accepted@),
        is_line_diff(old_text@, new_text@, line_changes(old_text@, new_text@)),
{
    rebuild(old_text, &diff_lines(old_text, new_text), accepted)
}

/// The texts one after the other.
pub open spec fn run_together(parts: Seq<Seq<char>>) -> Seq<char>
    decreases parts.len(),
{
    if parts.len() == 0 {
        Seq::empty()
    } else {
        run_together(parts.drop_last()) + parts.last()
    }
}

proof fn lemma_run_together_front(x: Seq<char>, rest: Seq<Seq<char>>)
    ensures
        run_together(seq![x] + rest) == x + run_together(rest),
    decreases rest.len(),
{
    let all = seq![x] + rest;
    if rest.len() == 0 {
        reveal_with_fuel(run_together, 2);
        assert(all.drop_last() =~= Seq::empty());
        assert(all.last() == x);
        assert(run_together(all) =~= x + run_together(rest));
    } else {
        lemma_run_together_front(x, rest.drop_last());
        assert(all.drop_last() =~= seq![x] + rest.drop_last());
        assert(all.last() == rest.last());
        assert(run_together(all) =~= x + run_together(rest));
    }
}

proof fn lemma_next_break(s: Seq<char>, i: int)
    requires
        0 <= i <= s.len(),
    ensures
        i <= next_break(s, i) <= s.len(),
        next_break(s, i) < s.len() ==> breaks_at(s, next_break(s, i)),
        forall|j: int| i <= j < next_break(s, i) ==> !breaks_at(s, j),
    decreases s.len() - i,
{
    if !(i >= s.len() || breaks_at(s, i)) {
        lemma_next_break(s, i + 1);
    }
}

/// The lines of a text, one after the other, are the text.
pub proof fn lines_make_the_text(s: Seq<char>)
    ensures
        run_together(line_tokens(s)) == s,
    decreases s.len(),
{
    lemma_next_break(s, 0);
    let e = next_break(s, 0);
    if s.len() == 0 {
    } else if e >= s.len() {
        reveal_with_fuel(run_together, 2);
        assert(seq![s].drop_last() =~= Seq::empty());
        assert(run_together(seq![s]) =~= s);
    } else {
        lines_make_the_text(s.skip(e + 1));
        lemma_run_together_front(s.take(e + 1), line_tokens(s.skip(e + 1)));
        assert(s.take(e + 1) + s.skip(e + 1) =~= s);
    }
}

proof fn lemma_blocks_of_equal(c: Seq<Change>)
    ensures
        all_equal(c) <==> blocks(c).len() == 0,
        all_equal(c) ==> side(c, LineTag::Insert) == side(c, LineTag::Delete),
    decreases c.len(),
{
    if c.len() > 0 {
        let before = c.drop_last();
        lemma_blocks_of_equal(before);
        if c.last().tag == LineTag::Equal {
            assert(all_equal(c) <==> all_equal(before)) by {
                if all_equal(before) {
                    assert forall|i: int| 0 <= i < c.len() implies (#[trigger] c[i]).tag
                        == LineTag::Equal by {
                        if i < before.len() {
                            assert(before[i] == c[i]);
                        }
                    }
                }
                if all_equal(c) {
                    assert forall|i: int| 0 <= i < before.len() implies (#[trigger] before[i]).tag
                        == LineTag::Equal by {
                        assert(before[i] == c[i]);
                    }
                }
            }
        } else {
            assert(c[c.len() - 1].tag != LineTag::Equal);
            assert(!all_equal(c));
            if ends_changed(before) {
                lemma_blocks_nonempty(before);
            }
        }
    }
}

/// There is no block if and only if the two texts are the same.
pub proof fn no_blocks_without_changes(old_text: Seq<char>, new_text: Seq<char>, c: Seq<Change>)
    requires
        is_line_diff(old_text, new_text, c),
    ensures
        blocks(c).len() == 0 <==> old_text == new_text,
{
    lemma_blocks_of_equal(c);
    lines_make_the_text(old_text);
    lines_make_the_text(new_text);
}

/// Rejecting every block gives the old text back to the letter.
pub proof fn rejecting_everything_restores_the_old_text(
    old_text: Seq<char>,
    c: Seq<Change>,
    accepted: Seq<bool>,
)
    requires
        accepted.len() >= blocks(c).len(),
        forall|k: int| 0 <= k < accepted.len() ==> !accepted[k],
    ensures
        rebuilt(old_text, c, accepted) == old_text,
{
}

proof fn lemma_kept_same(c: Seq<Change>, a: Seq<bool>, b: Seq<bool>)
    requires
        forall|k: int| 0 <= k < blocks(c).len() ==> accepts(a, k) == #[trigger] accepts(b, k),
    ensures
        kept(c, a) == kept(c, b),
    decreases c.len(),
{
    if c.len() > 0 {
        lemma_kept_same(c.drop_last(), a, b);
        lemma_blocks_grow(c);
    }
}

/// A mark that is missing counts as accepted.
pub proof fn missing_marks_accept(old_text: Seq<char>, c: Seq<Change>, accepted: Seq<bool>)
    ensures
        rebuilt(old_text, c, accepted.push(true)) == rebuilt(old_text, c, accepted),
{
    let more = accepted.push(true);
    assert forall|k: int| 0 <= k implies accepts(more, k) == #[trigger] accepts(accepted, k) by {}
    lemma_kept_same(c, more, accepted);
    let n = blocks(c).len() as int;
    if rejects_all(accepted, n) {
        assert forall|k: int| 0 <= k < n implies !#[trigger] accepts(more, k) by {
            assert(!accepts(accepted, k));
        }
    }
    if rejects_all(more, n) {
        assert forall|k: int| 0 <= k < n implies !#[trigger] accepts(accepted, k) by {
            assert(!accepts(more, k));
        }
    }
}

/// Nothing in the line ends a line.
pub open spec fn one_line(l: Seq<char>) -> bool {
    forall|i: int| 0 <= i < l.len() ==> !is_line_end(#[trigger] l[i])
}

proof fn lemma_blocks_grow(c: Seq<Change>)
    requires
        c.len() > 0,
    ensures
        blocks(c.drop_last()).len() <= blocks(c).len(),
        c.last().tag != LineTag::Equal ==> blocks(c).len() > 0,
{
    if ends_changed(c.drop_last()) {
        lemma_blocks_nonempty(c.drop_last());
    }
}

/// With every block accepted the lines of the new side are kept.
proof fn lemma_kept_of_accepted(c: Seq<Change>, accepted: Seq<bool>)
    requires
        forall|k: int| 0 <= k < blocks(c).len() ==> #[trigger] accepts(accepted, k),
    ensures
        kept(c, accepted) == side(c, LineTag::Delete).map_values(|l: Seq<char>| bare(l)),
    decreases c.len(),
{
    if c.len() > 0 {
        lemma_blocks_grow(c);
        lemma_kept_of_accepted(c.drop_last(), accepted);
        if c.last().tag != LineTag::Equal {
            assert(accepts(accepted, blocks(c).len() - 1));
        }
        assert(kept(c, accepted) =~= side(c, LineTag::Delete).map_values(|l: Seq<char>| bare(l)));
    } else {
        assert(kept(c, accepted) =~= side(c, LineTag::Delete).map_values(|l: Seq<char>| bare(l)));
    }
}

proof fn lemma_bare_line(l: Seq<char>, eol: Seq<char>)
    requires
        one_line(l),
        eol == seq!['\n'] || eol == seq!['\r', '\n'] || eol.len() == 0,
    ensures
        bare(l + eol) == l,
{
    reveal_with_fuel(bare, 3);
    if eol.len() == 0 {
        assert(l + eol =~= l);
    } else if eol.len() == 1 {
        assert((l + eol).drop_last() =~= l);
    } else {
        assert((l + eol).drop_last().drop_last() =~= l);
    }
}

proof fn lemma_first_token(l: Seq<char>, eol: Seq<char>, rest: Seq<char>)
    requires
        one_line(l),
        eol == seq!['\n'] || eol == seq!['\r', '\n'],
    ensures
        line_tokens(l + eol + rest) == seq![l + eol] + line_tokens(rest),
{
    let s = l + eol + rest;
    let e = l.len() + eol.len() - 1;
    assert(s[e] == '\n');
    lemma_next_break(s, 0);
    assert forall|j: int| 0 <= j < e implies !#[trigger] breaks_at(s, j) by {
        if j < l.len() {
            assert(s[j] == l[j]);
        } else {
            assert(s[j] == eol[0] && s[j + 1] == eol[1]);
        }
    }
    assert(breaks_at(s, e));
    assert(next_break(s, 0) == e);
    assert(s.take(e + 1) =~= l + eol);
    assert(s.skip(e + 1) =~= rest);
}

proof fn lemma_joined_front(x: Seq<char>, rest: Seq<Seq<char>>, sep: Seq<char>)
    requires
        rest.len() > 0,
    ensures
        joined(seq![x] + rest, sep) == x + sep + joined(rest, sep),
    decreases rest.len(),
{
    let all = seq![x] + rest;
    assert(all.last() == rest.last());
    assert(all.drop_last() =~= seq![x] + rest.drop_last());
    if rest.len() == 1 {
        reveal_with_fuel(joined, 2);
        assert(all.drop_last() =~= seq![x]);
        assert(joined(all, sep) =~= x + sep + joined(rest, sep));
    } else {
        lemma_joined_front(x, rest.drop_last(), sep);
        assert(joined(all, sep) =~= x + sep + joined(rest, sep));
    }
}

proof fn lemma_tokens_of_lines(lines: Seq<Seq<char>>, eol: Seq<char>, trailing: bool)
    requires
        lines.len() > 0,
        trailing || lines.last().len() > 0,
        forall|i: int| 0 <= i < lines.len() ==> one_line(#[trigger] lines[i]),
        eol == seq!['\n'] || eol == seq!['\r', '\n'],
    ensures
        line_tokens(laid_out(lines, eol, trailing)).map_values(|l: Seq<char>| bare(l)) == lines,
    decreases lines.len(),
{
    let l = lines[0];
    let bares = |l: Seq<char>| bare(l);
    if lines.len() == 1 {
        if trailing {
            lemma_first_token(l, eol, Seq::empty());
            assert(l + eol + Seq::empty() =~= l + eol);
            lemma_bare_line(l, eol);
            assert(line_tokens(l + eol).map_values(bares) =~= lines);
        } else {
            lemma_next_break(l, 0);
            assert(next_break(l, 0) == l.len()) by {
                if next_break(l, 0) < l.len() {
                    assert(is_line_end(l[next_break(l, 0)]));
                }
            }
            lemma_bare_line(l, Seq::empty());
            assert(l + Seq::<char>::empty() =~= l);
            assert(line_tokens(l).map_values(bares) =~= lines);
        }
    } else {
        let rest = lines.drop_first();
        assert(lines =~= seq![l] + rest);
        assert forall|i: int| 0 <= i < rest.len() implies one_line(#[trigger] rest[i]) by {
            assert(rest[i] == lines[i + 1]);
        }
        lemma_tokens_of_lines(rest, eol, trailing);
        lemma_joined_front(l, rest, eol);
        assert(laid_out(lines, eol, trailing) =~= l + eol + laid_out(rest, eol, trailing));
        lemma_first_token(l, eol, laid_out(rest, eol, trailing));
        lemma_bare_line(l, eol);
        let tail = line_tokens(laid_out(rest, eol, trailing));
        assert((seq![l + eol] + tail).map_values(bares) =~= seq![l] + tail.map_values(bares));
    }
}

proof fn lemma_bare_end(l: Seq<char>)
    ensures
        !ends_in(bare(l), '\n'),
    decreases l.len(),
{
    if l.len() > 0 && is_line_end(l.last()) {
        lemma_bare_end(l.drop_last());
    }
}

proof fn lemma_kept_lines(c: Seq<Change>, accepted: Seq<bool>)
    ensures
        forall|i: int|
            0 <= i < kept(c, accepted).len() ==> !ends_in(#[trigger] kept(c, accepted)[i], '\n'),
    decreases c.len(),
{
    if c.len() > 0 {
        lemma_kept_lines(c.drop_last(), accepted);
        lemma_bare_end(c.last().text);
        let before = kept(c.drop_last(), accepted);
        assert forall|i: int| 0 <= i < kept(c, accepted).len() implies !ends_in(
            #[trigger] kept(c, accepted)[i],
            '\n',
        ) by {
            if i < before.len() {
                assert(kept(c, accepted)[i] == before[i]);
            }
        }
    }
}

proof fn lemma_without_blank_end(lines: Seq<Seq<char>>)
    ensures
        without_blank_end(lines).len() <= lines.len(),
        without_blank_end(lines) == lines.take(without_blank_end(lines).len() as int),
        without_blank_end(lines).len() > 0 ==> without_blank_end(lines).last().len() > 0,
    decreases lines.len(),
{
    if lines.len() > 0 && lines.last().len() == 0 {
        lemma_without_blank_end(lines.drop_last());
        let n = without_blank_end(lines).len() as int;
        assert(lines.drop_last().take(n) =~= lines.take(n));
    } else {
        assert(lines.take(lines.len() as int) =~= lines);
    }
}

/// The ending follows the old text: what is left, if anything, ends with a line ending if
/// and only if the old text does.
pub proof fn the_ending_follows_the_old_text(
    old_text: Seq<char>,
    c: Seq<Change>,
    accepted: Seq<bool>,
)
    ensures
        rebuilt(old_text, c, accepted).len() > 0 ==> ends_in(rebuilt(old_text, c, accepted), '\n')
            == ends_in(old_text, '\n'),
{
    let lines = kept(c, accepted);
    let eol = line_ending(old_text);
    if !rejects_all(accepted, blocks(c).len() as int) {
        if ends_in(old_text, '\n') {
            assert(lines.len() == 0 ==> joined(lines, eol).len() == 0);
            assert(eol.last() == '\n');
        } else {
            let some = without_blank_end(lines);
            lemma_kept_lines(c, accepted);
            lemma_without_blank_end(lines);
            if some.len() > 0 {
                assert(some.last() == lines[some.len() - 1]);
                assert(joined(some, eol).last() == some.last().last());
            }
        }
    }
}

/// Accepting every block gives the new text, where it is empty, or its lines end as those
/// of the old text do, the last one too.
pub proof fn accepting_everything_gives_the_new_text(
    old_text: Seq<char>,
    lines: Seq<Seq<char>>,
    c: Seq<Change>,
    accepted: Seq<bool>,
)
    requires
        ends_in(old_text, '\n') || lines.len() == 0 || lines.last().len() > 0,
        forall|i: int| 0 <= i < lines.len() ==> one_line(#[trigger] lines[i]),
        is_line_diff(
            old_text,
            laid_out(lines, line_ending(old_text), ends_in(old_text, '\n')),
            c,
        ),
        forall|k: int| 0 <= k < blocks(c).len() ==> #[trigger] accepts(accepted, k),
    ensures
        rebuilt(old_text, c, accepted) == laid_out(
            lines,
            line_ending(old_text),
            ends_in(old_text, '\n'),
        ),
{
    let new_text = laid_out(lines, line_ending(old_text), ends_in(old_text, '\n'));
    no_blocks_without_changes(old_text, new_text, c);
    if blocks(c).len() > 0 {
        assert(accepts(accepted, 0));
        lemma_kept_of_accepted(c, accepted);
        if lines.len() > 0 {
            lemma_tokens_of_lines(lines, line_ending(old_text), ends_in(old_text, '\n'));
        } else {
            assert(new_text =~= Seq::<char>::empty());
            assert(kept(c, accepted) =~= lines);
        }
    }
}

/// Lines without their line endings.
pub open spec fn bare_lines(lines: Seq<Seq<char>>) -> Seq<Seq<char>> {
    lines.map_values(|l: Seq<char>| bare(l))
}

/// The marks from number `n` on.
pub open spec fn marks_from(accepted: Seq<bool>, n: int) -> Seq<bool> {
    if n <= accepted.len() {
        accepted.skip(n)
    } else {
        Seq::empty()
    }
}

/// No line of `c` is unchanged.
pub open spec fn all_changed(c: Seq<Change>) -> bool {
    forall|i: int| 0 <= i < c.len() ==> (#[trigger] c[i]).tag != LineTag::Equal
}

/// `block` is a block between `before` and `after`: it changes every line of it, and on
/// either side comes an unchanged line, or nothing.
pub open spec fn is_block_between(before: Seq<Change>, block: Seq<Change>, after: Seq<Change>) -> bool {
    &&& block.len() > 0
    &&& all_changed(block)
    &&& before.len() > 0 ==> before.last().tag == LineTag::Equal
    &&& after.len() > 0 ==> after[0].tag == LineTag::Equal
}

/// The side of a block that is in the text: the new one where it is accepted, the old one
/// where it is not.
pub open spec fn chosen_side(block: Seq<Change>, on: bool) -> Seq<Seq<char>> {
    bare_lines(
        side(
            block,
            if on {
                LineTag::Delete
            } else {
                LineTag::Insert
            },
        ),
    )
}

proof fn lemma_block_after(before: Seq<Change>, block: Seq<Change>, accepted: Seq<bool>)
    requires
        block.len() > 0,
        all_changed(block),
        before.len() > 0 ==> before.last().tag == LineTag::Equal,
    ensures
        blocks(before + block) == blocks(before).push(block.map_values(|c: Change| show(c))),
        kept(before + block, accepted) == kept(before, accepted) + chosen_side(
            block,
            accepts(accepted, blocks(before).len() as int),
        ),
    decreases block.len(),
{
    let c = before + block;
    let some = block.drop_last();
    let shows = |c: Change| show(c);
    let on = accepts(accepted, blocks(before).len() as int);
    assert(c.drop_last() =~= before + some);
    assert(c.last() == block.last());
    assert(block[block.len() - 1].tag != LineTag::Equal);
    assert(block.map_values(shows) =~= some.map_values(shows).push(show(block.last())));
    if some.len() == 0 {
        reveal_with_fuel(side, 2);
        assert(c.drop_last() =~= before);
        assert(!ends_changed(before));
        assert(blocks(c) == blocks(before).push(seq![show(c.last())]));
        assert(block.map_values(shows) =~= seq![show(c.last())]);
        assert(kept(c, accepted) =~= kept(before, accepted) + chosen_side(block, on));
    } else {
        assert forall|i: int| 0 <= i < some.len() implies (#[trigger] some[i]).tag
            != LineTag::Equal by {
            assert(some[i] == block[i]);
        }
        lemma_block_after(before, some, accepted);
        assert((before + some).last() == some.last());
        assert(some[some.len() - 1].tag != LineTag::Equal);
        assert(ends_changed(c.drop_last()));
        assert(blocks(c) =~= blocks(before).push(block.map_values(shows)));
        assert(blocks(c).len() - 1 == blocks(before).len());
        assert(kept(c, accepted) =~= kept(before, accepted) + chosen_side(block, on));
    }
}

proof fn lemma_rest_after(first: Seq<Change>, after: Seq<Change>, accepted: Seq<bool>)
    requires
        after.len() > 0 ==> after[0].tag == LineTag::Equal,
    ensures
        blocks(first + after) == blocks(first) + blocks(after),
        kept(first + after, accepted) == kept(first, accepted) + kept(
            after,
            marks_from(accepted, blocks(first).len() as int),
        ),
    decreases after.len(),
{
    let c = first + after;
    let n = blocks(first).len() as int;
    let later = marks_from(accepted, n);
    if after.len() == 0 {
        assert(c =~= first);
        assert(blocks(first) + blocks(after) =~= blocks(first));
        assert(kept(first, accepted) + kept(after, later) =~= kept(first, accepted));
    } else {
        let some = after.drop_last();
        assert(some.len() > 0 ==> some[0] == after[0]);
        lemma_rest_after(first, some, accepted);
        assert(c.drop_last() =~= first + some);
        assert(c.last() == after.last());
        if after.last().tag == LineTag::Equal {
            assert(blocks(c) =~= blocks(first) + blocks(after));
        } else {
            assert(some.len() > 0);
            assert((first + some).last() == some.last());
            if ends_changed(some) {
                lemma_blocks_nonempty(some);
            }
            assert(blocks(c) =~= blocks(first) + blocks(after));
            assert(accepts(later, blocks(after).len() - 1) == accepts(
                accepted,
                blocks(c).len() - 1,
            ));
        }
        assert(kept(c, accepted) =~= kept(first, accepted) + kept(after, later));
    }
}

/// Each block is shown whole, and goes its own way: where it is accepted all lines of its
/// new side are in the text and none of its old, where it is rejected all lines of its old
/// side and none of its new, and what stands before and after it is not touched by that.
pub proof fn blocks_are_taken_or_left_whole(
    before: Seq<Change>,
    block: Seq<Change>,
    after: Seq<Change>,
    accepted: Seq<bool>,
)
    requires
        is_block_between(before, block, after),
    ensures
        blocks(before + block + after) == blocks(before).push(
            block.map_values(|c: Change| show(c)),
        ) + blocks(after),
        kept(before + block + after, accepted) == kept(before, accepted) + bare_lines(
            if accepts(accepted, blocks(before).len() as int) {
                side(block, LineTag::Delete)
            } else {
                side(block, LineTag::Insert)
            },
        ) + kept(after, marks_from(accepted, (blocks(before).len() + 1) as int)),
{
    lemma_block_after(before, block, accepted);
    lemma_rest_after(before + block, after, accepted);
}

/// Another mark for one block changes the lines of that block and no others.
pub proof fn a_mark_changes_its_own_block_only(
    before: Seq<Change>,
    block: Seq<Change>,
    after: Seq<Change>,
    a: Seq<bool>,
    b: Seq<bool>,
)
    requires
        is_block_between(before, block, after),
        forall|k: int|
            0 <= k && k != blocks(before).len() ==> accepts(a, k) == #[trigger] accepts(b, k),
    ensures
        ({
            let n = blocks(before).len() as int;
            let rest = marks_from(a, n + 1);
            &&& kept(before + block + after, a) == kept(before, a) + chosen_side(
                block,
                accepts(a, n),
            ) + kept(after, rest)
            &&& kept(before + block + after, b) == kept(before, a) + chosen_side(
                block,
                accepts(b, n),
            ) + kept(after, rest)
        }),
{
    let n = blocks(before).len() as int;
    blocks_are_taken_or_left_whole(before, block, after, a);
    blocks_are_taken_or_left_whole(before, block, after, b);
    lemma_kept_same(before, a, b);
    let (x, y) = (marks_from(a, n + 1), marks_from(b, n + 1));
    assert forall|k: int| 0 <= k < blocks(after).len() implies accepts(x, k) == #[trigger] accepts(
        y,
        k,
    ) by {
        assert(accepts(a, n + 1 + k) == accepts(b, n + 1 + k));
    }
    lemma_kept_same(after, x, y);
}

/// Unchanged lines are in the text whatever is accepted.
pub proof fn unchanged_lines_stay(c: Seq<Change>, accepted: Seq<bool>)
    requires
        all_equal(c),
    ensures
        blocks(c).len() == 0,
        kept(c, accepted) == bare_lines(c.map_values(|l: Change| l.text)),
    decreases c.len(),
{
    let texts = |l: Change| l.text;
    if c.len() > 0 {
        let some = c.drop_last();
        assert forall|i: int| 0 <= i < some.len() implies (#[trigger] some[i]).tag
            == LineTag::Equal by {
            assert(some[i] == c[i]);
        }
        unchanged_lines_stay(some, accepted);
        assert(c[c.len() - 1].tag == LineTag::Equal);
        assert(kept(c, accepted) =~= bare_lines(c.map_values(texts)));
    } else {
        assert(kept(c, accepted) =~= bare_lines(c.map_values(texts)));
    }
}

proof fn lemma_kept_of_rejected(c: Seq<Change>, accepted: Seq<bool>)
    requires
        rejects_all(accepted, blocks(c).len() as int),
    ensures
        kept(c, accepted) == bare_lines(side(c, LineTag::Insert)),
    decreases c.len(),
{
    if c.len() > 0 {
        lemma_blocks_grow(c);
        assert forall|k: int| 0 <= k < blocks(c.drop_last()).len() implies !#[trigger] accepts(
            accepted,
            k,
        ) by {}
        lemma_kept_of_rejected(c.drop_last(), accepted);
        if c.last().tag != LineTag::Equal {
            assert(!accepts(accepted, blocks(c).len() - 1));
        }
    }
    assert(kept(c, accepted) =~= bare_lines(side(c, LineTag::Insert)));
}

proof fn lemma_bare_prefix(t: Seq<char>)
    ensures
        bare(t).len() <= t.len(),
        bare(t) == t.take(bare(t).len() as int),
        bare(t).len() > 0 ==> !is_line_end(bare(t).last()),
    decreases t.len(),
{
    if t.len() > 0 && is_line_end(t.last()) {
        lemma_bare_prefix(t.drop_last());
        assert(t.drop_last().take(bare(t).len() as int) =~= t.take(bare(t).len() as int));
    } else {
        assert(t.take(t.len() as int) =~= t);
    }
}

/// A text in which no line ends before `e`, which is its last place, is one line.
proof fn lemma_bare_is_one_line(s: Seq<char>, t: Seq<char>, e: int)
    requires
        0 <= e <= s.len(),
        forall|j: int| 0 <= j < e ==> !breaks_at(s, j),
        t == s.take(
            if e < s.len() {
                e + 1
            } else {
                e
            },
        ),
    ensures
        one_line(bare(t)),
{
    lemma_bare_prefix(t);
    let l = bare(t);
    assert forall|j: int| 0 <= j < l.len() implies !is_line_end(#[trigger] l[j]) by {
        if is_line_end(l[j]) {
            assert(l[j] == s[j]);
            assert(l.last() == l[l.len() - 1]);
            assert(j < l.len() - 1);
            assert(!breaks_at(s, j));
            assert(s[j + 1] == '\n');
            if j + 1 < e {
                assert(!breaks_at(s, j + 1));
            } else {
                assert(l.last() == s[j + 1]);
            }
        }
    }
}

proof fn lemma_tokens_are_lines(s: Seq<char>)
    ensures
        forall|i: int| 0 <= i < line_tokens(s).len() ==> one_line(bare(#[trigger] line_tokens(s)[i])),
    decreases s.len(),
{
    if s.len() > 0 {
        lemma_next_break(s, 0);
        let e = next_break(s, 0);
        if e >= s.len() {
            assert(s.take(e) =~= s);
            lemma_bare_is_one_line(s, s, e);
        } else {
            lemma_bare_is_one_line(s, s.take(e + 1), e);
            let rest = line_tokens(s.skip(e + 1));
            lemma_tokens_are_lines(s.skip(e + 1));
            assert forall|i: int| 0 <= i < line_tokens(s).len() implies one_line(
                bare(#[trigger] line_tokens(s)[i]),
            ) by {
                if i > 0 {
                    assert(line_tokens(s)[i] == rest[i - 1]);
                }
            }
        }
    }
}

proof fn lemma_side_holds(c: Seq<Change>, other: LineTag, i: int)
    requires
        0 <= i < c.len(),
        c[i].tag != other,
    ensures
        exists|j: int|
            0 <= j < side(c, other).len() && #[trigger] side(c, other)[j] == c[i].text,
    decreases c.len(),
{
    if i < c.len() - 1 {
        lemma_side_holds(c.drop_last(), other, i);
        let before = side(c.drop_last(), other);
        let j = choose|j: int| 0 <= j < before.len() && #[trigger] before[j] == c[i].text;
        assert(side(c, other)[j] == c[i].text);
    } else {
        assert(side(c, other)[side(c, other).len() - 1] == c[i].text);
    }
}

proof fn lemma_kept_are_lines(c: Seq<Change>, accepted: Seq<bool>)
    requires
        forall|i: int| 0 <= i < c.len() ==> one_line(bare((#[trigger] c[i]).text)),
    ensures
        forall|i: int| 0 <= i < kept(c, accepted).len() ==> one_line(#[trigger] kept(c, accepted)[i]),
    decreases c.len(),
{
    if c.len() > 0 {
        let some = c.drop_last();
        assert forall|i: int| 0 <= i < some.len() implies one_line(bare((#[trigger] some[i]).text)) by {
            assert(some[i] == c[i]);
        }
        lemma_kept_are_lines(some, accepted);
        assert(one_line(bare(c[c.len() - 1].text)));
        let before = kept(some, accepted);
        assert forall|i: int| 0 <= i < kept(c, accepted).len() implies one_line(
            #[trigger] kept(c, accepted)[i],
        ) by {
            if i < before.len() {
                assert(kept(c, accepted)[i] == before[i]);
            }
        }
    }
}

/// The text that is built has the lines that the blocks leave, all of them and in order.
/// Only where the old text does not end with a newline are empty lines at the end left
/// out, since the text would end with a newline with them.
pub proof fn the_text_has_the_lines_that_are_left(
    old_text: Seq<char>,
    new_text: Seq<char>,
    c: Seq<Change>,
    accepted: Seq<bool>,
)
    requires
        is_line_diff(old_text, new_text, c),
    ensures
        ends_in(old_text, '\n') ==> bare_lines(line_tokens(rebuilt(old_text, c, accepted))) == kept(
            c,
            accepted,
        ),
        !ends_in(old_text, '\n') ==> ({
            let lines = bare_lines(line_tokens(rebuilt(old_text, c, accepted)));
            &&& lines.len() <= kept(c, accepted).len()
            &&& lines == kept(c, accepted).take(lines.len() as int)
            &&& forall|i: int|
                lines.len() <= i < kept(c, accepted).len() ==> (#[trigger] kept(
                    c,
                    accepted,
                )[i]).len() == 0
        }),
{
    let all = kept(c, accepted);
    let trailing = ends_in(old_text, '\n');
    let text = rebuilt(old_text, c, accepted);
    assert(all.take(all.len() as int) =~= all);
    if rejects_all(accepted, blocks(c).len() as int) {
        lemma_kept_of_rejected(c, accepted);
    } else {
        let lines = lines_in(all, trailing);
        lemma_tokens_are_lines(old_text);
        lemma_tokens_are_lines(new_text);
        assert forall|i: int| 0 <= i < c.len() implies one_line(bare((#[trigger] c[i]).text)) by {
            let other = if c[i].tag == LineTag::Insert {
                LineTag::Delete
            } else {
                LineTag::Insert
            };
            lemma_side_holds(c, other, i);
        }
        lemma_kept_are_lines(c, accepted);
        lemma_without_blank_end(all);
        lemma_blanks_at_the_end(all);
        assert forall|i: int| 0 <= i < lines.len() implies one_line(#[trigger] lines[i]) by {
            assert(lines[i] == all[i]);
        }
        if lines.len() > 0 {
            lemma_tokens_of_lines(lines, line_ending(old_text), trailing);
        } else {
            assert(text =~= Seq::<char>::empty());
        }
        assert(bare_lines(line_tokens(text)) =~= lines);
    }
}

proof fn lemma_token_endings(lines: Seq<Seq<char>>, eol: Seq<char>, trailing: bool)
    requires
        lines.len() > 0,
        trailing || lines.last().len() > 0,
        forall|i: int| 0 <= i < lines.len() ==> one_line(#[trigger] lines[i]),
        eol == seq!['\n'] || eol == seq!['\r', '\n'],
    ensures
        line_tokens(laid_out(lines, eol, trailing)).len() == lines.len(),
        forall|i: int|
            0 <= i < lines.len() ==> #[trigger] line_tokens(laid_out(lines, eol, trailing))[i]
                == lines[i] + if trailing || i < lines.len() - 1 {
                eol
            } else {
                Seq::empty()
            },
    decreases lines.len(),
{
    let l = lines[0];
    if lines.len() == 1 {
        if trailing {
            lemma_first_token(l, eol, Seq::empty());
            assert(l + eol + Seq::empty() =~= l + eol);
        } else {
            lemma_next_break(l, 0);
            assert(next_break(l, 0) == l.len()) by {
                if next_break(l, 0) < l.len() {
                    assert(is_line_end(l[next_break(l, 0)]));
                }
            }
            assert(l + Seq::<char>::empty() =~= l);
        }
    } else {
        let rest = lines.drop_first();
        assert(lines =~= seq![l] + rest);
        assert forall|i: int| 0 <= i < rest.len() implies one_line(#[trigger] rest[i]) by {
            assert(rest[i] == lines[i + 1]);
        }
        lemma_token_endings(rest, eol, trailing);
        lemma_joined_front(l, rest, eol);
        assert(laid_out(lines, eol, trailing) =~= l + eol + laid_out(rest, eol, trailing));
        lemma_first_token(l, eol, laid_out(rest, eol, trailing));
        let tail = line_tokens(laid_out(rest, eol, trailing));
        let all = line_tokens(laid_out(lines, eol, trailing));
        assert forall|i: int| 0 <= i < lines.len() implies #[trigger] all[i] == lines[i]
            + if trailing || i < lines.len() - 1 {
            eol
        } else {
            Seq::empty()
        } by {
            if i > 0 {
                assert(all[i] == tail[i - 1]);
            }
        }
    }
}

/// Where something is accepted, the lines of the text end as the old text has it: with a
/// carriage return and a newline where these occur there, with a newline alone elsewhere.
/// Only the last line may have no ending.
pub proof fn lines_end_as_in_the_old_text(
    old_text: Seq<char>,
    new_text: Seq<char>,
    c: Seq<Change>,
    accepted: Seq<bool>,
    i: int,
)
    requires
        is_line_diff(old_text, new_text, c),
        !rejects_all(accepted, blocks(c).len() as int),
        0 <= i < line_tokens(rebuilt(old_text, c, accepted)).len(),
        i < line_tokens(rebuilt(old_text, c, accepted)).len() - 1 || ends_in(old_text, '\n'),
    ensures
        ({
            let token = line_tokens(rebuilt(old_text, c, accepted))[i];
            token == bare(token) + if occurs(old_text, seq!['\r', '\n']) {
                seq!['\r', '\n']
            } else {
                seq!['\n']
            }
        }),
{
    let all = kept(c, accepted);
    let trailing = ends_in(old_text, '\n');
    let lines = lines_in(all, trailing);
    let eol = line_ending(old_text);
    lemma_tokens_are_lines(old_text);
    lemma_tokens_are_lines(new_text);
    assert forall|i: int| 0 <= i < c.len() implies one_line(bare((#[trigger] c[i]).text)) by {
        let other = if c[i].tag == LineTag::Insert {
            LineTag::Delete
        } else {
            LineTag::Insert
        };
        lemma_side_holds(c, other, i);
    }
    lemma_kept_are_lines(c, accepted);
    lemma_without_blank_end(all);
    assert forall|i: int| 0 <= i < lines.len() implies one_line(#[trigger] lines[i]) by {
        assert(lines[i] == all[i]);
    }
    if lines.len() > 0 {
        lemma_token_endings(lines, eol, trailing);
        lemma_bare_line(lines[i], eol);
    } else {
        assert(laid_out(lines, eol, trailing) =~= Seq::<char>::empty());
    }
}

proof fn lemma_last_token(s: Seq<char>)
    requires
        s.len() > 0,
    ensures
        line_tokens(s).len() > 0,
        line_tokens(s).last().len() > 0,
        line_tokens(s).last().last() == s.last(),
    decreases s.len(),
{
    lemma_next_break(s, 0);
    let e = next_break(s, 0);
    if e < s.len() {
        let rest = s.skip(e + 1);
        assert(line_tokens(s) =~= seq![s.take(e + 1)] + line_tokens(rest));
        if rest.len() > 0 {
            lemma_last_token(rest);
        }
    }
}

/// With every block accepted, a text that does not end with a line ending comes out with
/// the same lines, whatever the old text was.
pub proof fn accepting_everything_gives_the_new_lines(
    old_text: Seq<char>,
    new_text: Seq<char>,
    c: Seq<Change>,
    accepted: Seq<bool>,
)
    requires
        is_line_diff(old_text, new_text, c),
        forall|k: int| 0 <= k < blocks(c).len() ==> #[trigger] accepts(accepted, k),
        new_text.len() > 0,
        !is_line_end(new_text.last()),
    ensures
        bare_lines(line_tokens(rebuilt(old_text, c, accepted))) == bare_lines(
            line_tokens(new_text),
        ),
{
    let all = kept(c, accepted);
    lemma_kept_of_accepted(c, accepted);
    the_text_has_the_lines_that_are_left(old_text, new_text, c, accepted);
    lemma_last_token(new_text);
    let tokens = line_tokens(new_text);
    assert(all =~= bare_lines(tokens));
    let last = all[all.len() - 1];
    assert(last == bare(tokens.last()));
    assert(last.len() > 0);
    let lines = bare_lines(line_tokens(rebuilt(old_text, c, accepted)));
    if lines.len() < all.len() {
        assert(all[all.len() - 1].len() == 0);
    }
    assert(all.take(all.len() as int) =~= all);
}

proof fn lemma_blanks_at_the_end(lines: Seq<Seq<char>>)
    ensures
        forall|i: int|
            without_blank_end(lines).len() <= i < lines.len() ==> (#[trigger] lines[i]).len() == 0,
    decreases lines.len(),
{
    if lines.len() > 0 && lines.last().len() == 0 {
        lemma_blanks_at_the_end(lines.drop_last());
        assert forall|i: int| without_blank_end(lines).len() <= i < lines.len() implies (
        #[trigger] lines[i]).len() == 0 by {
            if i < lines.len() - 1 {
                assert(lines.drop_last()[i] == lines[i]);
            }
        }
    }
}

/// A block shows each changed line as it is, without its line ending: new lines as added,
/// lines of the old text as taken away.
pub proof fn blocks_show_lines_as_they_are(tag: LineTag, l: Seq<char>, eol: Seq<char>)
    requires
        one_line(l),
        eol == seq!['\n'] || eol == seq!['\r', '\n'] || eol.len() == 0,
    ensures
        show(Change { tag, text: l + eol }).text == l,
        tag == LineTag::Insert ==> show(Change { tag, text: l + eol }).kind == DiffKind::Add,
        tag == LineTag::Delete ==> show(Change { tag, text: l + eol }).kind == DiffKind::Del,
{
    lemma_bare_line(l, eol);
}

/// A mark that is there decides; one that is not counts as set.
pub proof fn marks_decide(accepted: Seq<bool>, k: int)
    requires
        0 <= k,
    ensures
        k < accepted.len() ==> accepts(accepted, k) == accepted[k],
        k >= accepted.len() ==> accepts(accepted, k),
{
}

} // verus!
