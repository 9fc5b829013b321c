//! What is wrong with a document, as it is shown.

use vstd::prelude::*;
use vstd::string::*;

use crate::decimal;
use crate::decimal::decimal;
use crate::text;

verus! {

/// A place in a text: a line, and a column in it.
#[derive(Clone, Copy, PartialEq, Eq, Debug, Structural)]
pub struct LineCol {
    pub line: usize,
    pub col: usize,
}

/// Where a mark ends that begins at `start`: at `end` where that is farther on the same
/// line, or else one column on.
pub fn squiggle_end(start: LineCol, end: Option<LineCol>) -> (r: LineCol)
    requires
        start.col < usize::MAX,
    ensures
        r == if end is Some && end->0.line == start.line && end->0.col > start.col {
            end->0
        } else {
            LineCol { line: start.line, col: (start.col + 1) as usize }
        },
        r.line == start.line,
        r.col > start.col,
{
    let one_char = LineCol { line: start.line, col: start.col + 1 };
    match end {
        Some(e) => {
            if e.line == start.line && e.col > start.col {
                e
            } else {
                one_char
            }
        },
        None => one_char,
    }
}

/// Something that is wrong with the document, or may be.
#[derive(Clone, Debug, PartialEq, Eq)]
pub struct Diagnostic {
    pub is_error: bool,
    /// Where, if that is known; lines and columns count from 0.
    pub line_col: Option<LineCol>,
    pub message: String,
}

/// A diagnostic, its text as a sequence.
pub struct Fault {
    pub is_error: bool,
    pub line_col: Option<LineCol>,
    pub message: Seq<char>,
}

impl View for Diagnostic {
    type V = Fault;

    open spec fn view(&self) -> Fault {
        Fault { is_error: self.is_error, line_col: self.line_col, message: self.message@ }
    }
}

/// Diagnostics, their texts as sequences.
pub open spec fn faults(v: Seq<Diagnostic>) -> Seq<Fault> {
    v.map_values(|d: Diagnostic| d@)
}

/// The diagnostics without those that say what an earlier one said of the same place.
pub open spec fn distinct(f: Seq<Fault>) -> Seq<Fault>
    decreases f.len(),
{
    if f.len() == 0 {
        Seq::empty()
    } else {
        let before = distinct(f.drop_last());
        if before.contains(f.last()) {
            before
        } else {
            before.push(f.last())
        }
    }
}

fn same_place(a: Option<LineCol>, b: Option<LineCol>) -> (r: bool)
    ensures
        r == (a == b),
{
    match (a, b) {
        (Some(x), Some(y)) => x.line == y.line && x.col == y.col,
        (None, None) => true,
        _ => false,
    }
}

fn same_fault(a: &Diagnostic, b: &Diagnostic) -> (r: bool)
    ensures
        r == (a@ == b@),
{
    a.is_error == b.is_error && same_place(a.line_col, b.line_col) && text::same(
        a.message.as_str(),
        b.message.as_str(),
    )
}

fn holds(v: &Vec<Diagnostic>, d: &Diagnostic) -> (r: bool)
    ensures
        r == faults(v@).contains(d@),
{
    let mut i: usize = 0;
    while i < v.len()
        invariant
            i <= v@.len(),
            forall|j: int| 0 <= j < i ==> faults(v@)[j] != d@,
        decreases v@.len() - i,
    {
        if same_fault(&v[i], d) {
            assert(faults(v@)[i as int] == d@);
            return true;
        }
        i += 1;
    }
    false
}

/// Takes out what an earlier diagnostic said of the same place.
pub fn dedupe_diags(diags: &Vec<Diagnostic>) -> (r: Vec<Diagnostic>)
    ensures
        faults(r@) == distinct(faults(diags@)),
{
    let ghost all = faults(diags@);
    let mut out: Vec<Diagnostic> = Vec::new();
    assert(faults(out@) =~= Seq::<Fault>::empty());
    let mut i: usize = 0;
    while i < diags.len()
        invariant
            i <= diags@.len(),
            all == faults(diags@),
            faults(out@) == distinct(all.take(i as int)),
        decreases diags@.len() - i,
    {
        assert(all.take(i + 1).drop_last() =~= all.take(i as int));
        assert(all.take(i + 1).last() == diags@[i as int]@);
        if !holds(&out, &diags[i]) {
            let ghost before = out@;
            let d = &diags[i];
            let copy = Diagnostic {
                is_error: d.is_error,
                line_col: d.line_col,
                message: d.message.clone(),
            };
            out.push(copy);
            assert(faults(out@) =~= faults(before).push(diags@[i as int]@));
        }
        i += 1;
    }
    assert(all.take(i as int) =~= all);
    out
}

/// Nothing is said twice of one place, and nothing else is lost.
pub proof fn diagnostics_are_told_once(f: Seq<Fault>)
    ensures
        forall|i: int, j: int|
            0 <= i < j < distinct(f).len() ==> #[trigger] distinct(f)[i] != #[trigger] distinct(
                f,
            )[j],
        forall|d: Fault| distinct(f).contains(d) == #[trigger] f.contains(d),
        distinct(f).len() <= f.len(),
    decreases f.len(),
{
    if f.len() > 0 {
        let rest = f.drop_last();
        diagnostics_are_told_once(rest);
        let d = distinct(f);
        assert(f =~= rest.push(f.last()));
        assert forall|x: Fault| d.contains(x) == #[trigger] f.contains(x) by {
            if f.contains(x) {
                let k = choose|k: int| 0 <= k < f.len() && f[k] == x;
                if k < rest.len() {
                    assert(rest[k] == x);
                    assert(rest.contains(x));
                }
            }
            if rest.contains(x) {
                let k = choose|k: int| 0 <= k < rest.len() && rest[k] == x;
                assert(f[k] == x);
            }
            if !distinct(rest).contains(f.last()) {
                assert(d == distinct(rest).push(f.last()));
                assert(d[d.len() - 1] == f.last());
                if distinct(rest).contains(x) {
                    let k = choose|k: int|
                        0 <= k < distinct(rest).len() && distinct(rest)[k] == x;
                    assert(d[k] == x);
                }
                if d.contains(x) && x != f.last() {
                    let k = choose|k: int| 0 <= k < d.len() && d[k] == x;
                    assert(distinct(rest)[k] == x);
                }
                assert(f[f.len() - 1] == f.last());
            }
        }
    }
}

/// The lines of the errors, or of the warnings, each as a range of one line.
pub open spec fn lines_of(f: Seq<Fault>, errors: bool) -> Seq<(usize, usize)>
    decreases f.len(),
{
    if f.len() == 0 {
        Seq::empty()
    } else {
        let before = lines_of(f.drop_last(), errors);
        match f.last().line_col {
            Some(p) => if f.last().is_error == errors {
                before.push((p.line, p.line))
            } else {
                before
            },
            None => before,
        }
    }
}

/// The lines of the errors, or of the warnings.
pub fn diag_lines(diags: &Vec<Diagnostic>, wanted_error: bool) -> (r: Vec<(usize, usize)>)
    ensures
        r@ == lines_of(faults(diags@), wanted_error),
{
    let ghost all = faults(diags@);
    let mut out: Vec<(usize, usize)> = Vec::new();
    let mut i: usize = 0;
    while i < diags.len()
        invariant
            i <= diags@.len(),
            all == faults(diags@),
            out@ == lines_of(all.take(i as int), wanted_error),
        decreases diags@.len() - i,
    {
        assert(all.take(i + 1).drop_last() =~= all.take(i as int));
        assert(all.take(i + 1).last() == diags@[i as int]@);
        if diags[i].is_error == wanted_error {
            if let Some(p) = diags[i].line_col {
                out.push((p.line, p.line));
            }
        }
        i += 1;
    }
    assert(all.take(i as int) =~= all);
    out
}

/// How many of them are errors.
pub open spec fn errors_in(f: Seq<Fault>) -> nat
    decreases f.len(),
{
    if f.len() == 0 {
        0
    } else {
        errors_in(f.drop_last()) + if f.last().is_error {
            1nat
        } else {
            0nat
        }
    }
}

/// How many of them are errors.
pub fn error_count(diags: &Vec<Diagnostic>) -> (r: usize)
    ensures
        r == errors_in(faults(diags@)),
{
    let ghost all = faults(diags@);
    let mut n: usize = 0;
    let mut i: usize = 0;
    while i < diags.len()
        invariant
            n <= i <= diags@.len(),
            all == faults(diags@),
            n == errors_in(all.take(i as int)),
        decreases diags@.len() - i,
    {
        assert(all.take(i + 1).drop_last() =~= all.take(i as int));
        assert(all.take(i + 1).last() == diags@[i as int]@);
        if diags[i].is_error {
            n += 1;
        }
        i += 1;
    }
    assert(all.take(i as int) =~= all);
    n
}

/// How many diagnostics a language model is given.
pub const SUMMARY_LIMIT: usize = 20;

/// Diagnostics as lines of text, the lines of the document counted from 1.
pub open spec fn summary(f: Seq<Fault>) -> Seq<char>
    decreases f.len(),
{
    if f.len() == 0 {
        Seq::empty()
    } else {
        let d = f.last();
        summary(f.drop_last()) + (match d.line_col {
            Some(p) => "第 "@ + decimal((p.line + 1) as nat) + " 行："@,
            None => Seq::empty(),
        } + d.message + "\n"@)
    }
}

/// The first diagnostics.
pub open spec fn first_faults(f: Seq<Fault>) -> Seq<Fault> {
    if f.len() > SUMMARY_LIMIT {
        f.take(SUMMARY_LIMIT as int)
    } else {
        f
    }
}

/// The first diagnostics as lines of text.
pub fn diagnostic_summary(diags: &Vec<Diagnostic>) -> (r: String)
    requires
        forall|i: int|
            0 <= i < diags@.len() ==> ((#[trigger] diags@[i]).line_col matches Some(p) ==> p.line
                < usize::MAX),
    ensures
        r@ == summary(first_faults(faults(diags@))),
{
    let ghost all = first_faults(faults(diags@));
    let n: usize = if diags.len() > SUMMARY_LIMIT {
        SUMMARY_LIMIT
    } else {
        diags.len()
    };
    let mut out = String::new();
    let mut i: usize = 0;
    while i < n
        invariant
            i <= n <= diags@.len(),
            n == all.len(),
            all == first_faults(faults(diags@)),
            out@ == summary(all.take(i as int)),
            forall|k: int|
                0 <= k < diags@.len() ==> ((#[trigger] diags@[k]).line_col matches Some(p)
                    ==> p.line < usize::MAX),
        decreases n - i,
    {
        assert(all.take(i + 1).drop_last() =~= all.take(i as int));
        assert(all.take(i + 1).last() == diags@[i as int]@);
        let ghost before = out@;
        let mut place = String::new();
        assert(place@ =~= Seq::<char>::empty());
        if let Some(p) = diags[i].line_col {
            let line = decimal::show_size(p.line + 1);
            place = text::three("第 ", line.as_str(), " 行：");
        }
        let row = text::three(place.as_str(), diags[i].message.as_str(), "\n");
        out.append(row.as_str());
        i += 1;
    }
    assert(all.take(i as int) =~= all);
    out
}

/// Every diagnostic that has a place marks its line, errors among the errors and warnings
/// among the warnings; and no other line is marked.
pub proof fn every_place_is_marked(f: Seq<Fault>, errors: bool)
    ensures
        forall|i: int|
            0 <= i < f.len() && (#[trigger] f[i]).line_col is Some && f[i].is_error == errors
                ==> lines_of(f, errors).contains((f[i].line_col->0.line, f[i].line_col->0.line)),
        forall|k: int|
            0 <= k < lines_of(f, errors).len() ==> exists|i: int|
                0 <= i < f.len() && (#[trigger] f[i]).is_error == errors && f[i].line_col is Some
                    && (f[i].line_col->0.line, f[i].line_col->0.line) == #[trigger] lines_of(
                    f,
                    errors,
                )[k],
    decreases f.len(),
{
    if f.len() > 0 {
        let rest = f.drop_last();
        every_place_is_marked(rest, errors);
        let before = lines_of(rest, errors);
        let now = lines_of(f, errors);
        assert forall|i: int|
            0 <= i < f.len() && (#[trigger] f[i]).line_col is Some && f[i].is_error
                == errors implies now.contains((f[i].line_col->0.line, f[i].line_col->0.line)) by {
            let place = (f[i].line_col->0.line, f[i].line_col->0.line);
            if i < rest.len() {
                assert(rest[i] == f[i]);
                assert(before.contains(place));
                let k = choose|k: int| 0 <= k < before.len() && before[k] == place;
                assert(now[k] == place);
            } else {
                assert(now.last() == place);
            }
        }
        assert forall|k: int| 0 <= k < now.len() implies exists|i: int|
            0 <= i < f.len() && (#[trigger] f[i]).is_error == errors && f[i].line_col is Some && (
            f[i].line_col->0.line, f[i].line_col->0.line) == #[trigger] now[k] by {
            if k < before.len() {
                assert(now[k] == before[k]);
                let i = choose|i: int|
                    0 <= i < rest.len() && (#[trigger] rest[i]).is_error == errors
                        && rest[i].line_col is Some && (
                    rest[i].line_col->0.line, rest[i].line_col->0.line) == before[k];
                assert(f[i] == rest[i]);
            } else {
                assert(f[f.len() - 1].is_error == errors);
            }
        }
    }
}

/// Errors are counted one by one, wherever they stand.
pub proof fn errors_are_counted_one_by_one(a: Seq<Fault>, d: Fault, b: Seq<Fault>)
    ensures
        errors_in(a + seq![d] + b) == errors_in(a) + (if d.is_error {
            1nat
        } else {
            0
        }) + errors_in(b),
    decreases b.len(),
{
    let all = a + seq![d] + b;
    if b.len() == 0 {
        assert(all.drop_last() =~= a);
    } else {
        errors_are_counted_one_by_one(a, d, b.drop_last());
        assert(all.drop_last() =~= a + seq![d] + b.drop_last());
        assert(all.last() == b.last());
    }
}

/// A summary tells every diagnostic in order, with the line where it has one.
pub proof fn summaries_tell_every_diagnostic(a: Seq<Fault>, d: Fault)
    ensures
        summary(a.push(d)) == summary(a) + (match d.line_col {
            Some(p) => "第 "@ + decimal((p.line + 1) as nat) + " 行："@ + d.message + "\n"@,
            None => d.message + "\n"@,
        }),
{
    assert(a.push(d).drop_last() =~= a);
    assert(summary(a.push(d)) =~= summary(a) + (match d.line_col {
        Some(p) => "第 "@ + decimal((p.line + 1) as nat) + " 行："@ + d.message + "\n"@,
        None => d.message + "\n"@,
    }));
}

} // verus!
