//! What the status bar says.

use vstd::prelude::*;
use vstd::string::*;

use crate::autosave;
use crate::autosave::status_text;
use crate::decimal;
use crate::decimal::decimal;
use crate::diagnostics::{faults, Diagnostic, Fault};
use crate::text;
use crate::text::views;

verus! {

/// How long things took and how often they were done. Times are in milliseconds, as
/// they are shown.
pub struct Figures {
    pub compile_ms: String,
    pub raster_ms: String,
    pub index_ms: String,
    /// How many bytes were parsed again, and how many there are.
    pub reparsed: usize,
    pub text_bytes: usize,
    pub compiles: usize,
    pub rasters: usize,
    pub index_builds: usize,
}

/// The figures as they are shown; the index only where there is one.
pub open spec fn figure_cells(f: Figures) -> Seq<Seq<char>> {
    seq!["排版 "@ + f.compile_ms@ + "ms"@, "光栅化 "@ + f.raster_ms@ + "ms"@] + (if f.index_builds
        > 0 {
        seq!["索引 "@ + f.index_ms@ + "ms"@]
    } else {
        Seq::empty()
    }) + seq![
        "重解析 "@ + decimal(f.reparsed as nat) + "B/"@ + decimal(f.text_bytes as nat) + "B"@,
        "排版"@ + decimal(f.compiles as nat) + "·光栅"@ + decimal(f.rasters as nat) + "·索引"@
            + decimal(f.index_builds as nat) + " 次"@,
    ]
}

/// The figures as they are shown.
pub fn performance(f: &Figures) -> (r: Vec<String>)
    ensures
        views(r@) == figure_cells(*f),
{
    let compile = text::three("排版 ", f.compile_ms.as_str(), "ms");
    let raster = text::three("光栅化 ", f.raster_ms.as_str(), "ms");
    let mut out = text::list(&[compile.as_str(), raster.as_str()]);
    if f.index_builds > 0 {
        let index = text::three("索引 ", f.index_ms.as_str(), "ms");
        text::extend(&mut out, &[index.as_str()]);
    }
    let again = decimal::show_size(f.reparsed);
    let all = decimal::show_size(f.text_bytes);
    let mut parsed = text::three("重解析 ", again.as_str(), "B/");
    parsed.append(all.as_str());
    parsed.append("B");
    let compiles = decimal::show_size(f.compiles);
    let rasters = decimal::show_size(f.rasters);
    let builds = decimal::show_size(f.index_builds);
    let mut counts = text::three("排版", compiles.as_str(), "·光栅");
    counts.append(rasters.as_str());
    counts.append("·索引");
    counts.append(builds.as_str());
    counts.append(" 次");
    text::extend(&mut out, &[parsed.as_str(), counts.as_str()]);
    assert(views(out@) =~= figure_cells(*f));
    out
}

/// Which page is seen, how large, and how much memory the pages take. `percent` and
/// `mib` are as they are shown.
pub open spec fn view_texts(
    pages: nat,
    current: nat,
    fit: bool,
    percent: Seq<char>,
    mib: Seq<char>,
) -> Seq<Seq<char>> {
    seq![
        if pages == 0 {
            "0 页"@
        } else {
            decimal(current + 1) + "/"@ + decimal(pages) + " 页"@
        },
        if fit {
            "充满 "@ + percent + "%"@
        } else {
            percent + "%"@
        },
        mib + "MiB"@,
    ]
}

/// Which page is seen, how large, and how much memory the pages take.
pub fn view_cells(pages: usize, current: usize, fit: bool, percent: &str, mib: &str) -> (r: Vec<
    String,
>)
    requires
        current < usize::MAX,
    ensures
        views(r@) == view_texts(pages as nat, current as nat, fit, percent@, mib@),
{
    let page = if pages == 0 {
        "0 页".to_owned()
    } else {
        let here = decimal::show_size(current + 1);
        let all = decimal::show_size(pages);
        let mut t = text::three(here.as_str(), "/", all.as_str());
        t.append(" 页");
        t
    };
    let zoom = if fit {
        text::three("充满 ", percent, "%")
    } else {
        text::both(percent, "%")
    };
    let memory = text::both(mib, "MiB");
    let out = text::list(&[page.as_str(), zoom.as_str(), memory.as_str()]);
    assert(views(out@) =~= view_texts(pages as nat, current as nat, fit, percent@, mib@));
    out
}

/// What is counted in the document, how many headings it has, and whether it is saved.
pub fn document_cells(stats: &str, headings: usize, dirty: bool, autosave: bool) -> (r: Vec<String>)
    ensures
        views(r@) == seq![stats@, decimal(headings as nat) + " 标题"@, status_text(dirty, autosave)],
{
    let count = decimal::show_size(headings);
    let heads = text::both(count.as_str(), " 标题");
    let out = text::list(&[stats, heads.as_str(), autosave::status_label(dirty, autosave)]);
    assert(views(out@) =~= seq![
        stats@,
        decimal(headings as nat) + " 标题"@,
        status_text(dirty, autosave),
    ]);
    out
}

/// What is said of errors.
pub fn error_badge(errors: usize) -> (r: String)
    ensures
        r@ == if errors > 0 {
            "✗ "@ + decimal(errors as nat) + " 错误"@
        } else {
            "✓ 无错误"@
        },
{
    if errors > 0 {
        let count = decimal::show_size(errors);
        text::three("✗ ", count.as_str(), " 错误")
    } else {
        "✓ 无错误".to_owned()
    }
}

/// The line of the first error whose place is known.
pub open spec fn error_line(f: Seq<Fault>) -> Option<usize>
    decreases f.len(),
{
    if f.len() == 0 {
        None
    } else {
        match error_line(f.drop_last()) {
            Some(line) => Some(line),
            None => if f.last().is_error && f.last().line_col is Some {
                Some(f.last().line_col->0.line)
            } else {
                None
            },
        }
    }
}

/// The line of the first error whose place is known.
pub fn first_error_line(diags: &Vec<Diagnostic>) -> (r: Option<usize>)
    ensures
        r == error_line(faults(diags@)),
{
    let ghost all = faults(diags@);
    let mut found: Option<usize> = None;
    let mut i: usize = 0;
    while i < diags.len()
        invariant
            i <= diags@.len(),
            all == faults(diags@),
            found == error_line(all.take(i as int)),
        decreases diags@.len() - i,
    {
        assert(all.take(i + 1).drop_last() =~= all.take(i as int));
        assert(all.take(i + 1).last() == diags@[i as int]@);
        if found.is_none() && diags[i].is_error {
            if let Some(p) = diags[i].line_col {
                found = Some(p.line);
            }
        }
        i += 1;
    }
    assert(all.take(i as int) =~= all);
    found
}

/// The first error is the one that is jumped to: no error before it has a place.
pub proof fn the_first_error_is_named(f: Seq<Fault>)
    ensures
        match error_line(f) {
            Some(line) => exists|k: int|
                0 <= k < f.len() && (#[trigger] f[k]).is_error && f[k].line_col is Some
                    && f[k].line_col->0.line == line && forall|j: int|
                    0 <= j < k ==> !((#[trigger] f[j]).is_error && f[j].line_col is Some),
            None => forall|j: int|
                0 <= j < f.len() ==> !((#[trigger] f[j]).is_error && f[j].line_col is Some),
        },
    decreases f.len(),
{
    if f.len() > 0 {
        let rest = f.drop_last();
        the_first_error_is_named(rest);
        if let Some(line) = error_line(rest) {
            let k = choose|k: int|
                0 <= k < rest.len() && (#[trigger] rest[k]).is_error && rest[k].line_col is Some
                    && rest[k].line_col->0.line == line && forall|j: int|
                    0 <= j < k ==> !((#[trigger] rest[j]).is_error && rest[j].line_col is Some);
            assert(f[k] == rest[k]);
            assert forall|j: int| 0 <= j < k implies !((#[trigger] f[j]).is_error
                && f[j].line_col is Some) by {
                assert(f[j] == rest[j]);
            }
        } else {
            assert forall|j: int| 0 <= j < f.len() - 1 implies !((#[trigger] f[j]).is_error
                && f[j].line_col is Some) by {
                assert(f[j] == rest[j]);
            }
            assert(f[f.len() - 1] == f.last());
        }
    }
}

/// What the status bar says, part by part.
pub struct StatusBar {
    /// Times and counts, where the user wants them.
    pub performance: Option<Vec<String>>,
    pub view: Vec<String>,
    pub document: Vec<String>,
    pub errors: String,
    /// The line that a click on the errors leads to.
    pub error_line: Option<usize>,
    pub message: Option<String>,
}

/// What the status bar says.
pub fn status_bar(
    show_metrics: bool,
    figures: &Figures,
    view: Vec<String>,
    document: Vec<String>,
    errors: usize,
    diags: &Vec<Diagnostic>,
    message: Option<String>,
) -> (r: StatusBar)
    ensures
        r.performance is Some == show_metrics,
        r.performance matches Some(p) ==> views(p@) == figure_cells(*figures),
        r.view@ == view@,
        r.document@ == document@,
        r.errors@ == if errors > 0 {
            "✗ "@ + decimal(errors as nat) + " 错误"@
        } else {
            "✓ 无错误"@
        },
        r.error_line == if errors > 0 {
            error_line(faults(diags@))
        } else {
            None
        },
        r.message == message,
{
    let cells = if show_metrics {
        Some(performance(figures))
    } else {
        None
    };
    let line = if errors > 0 {
        first_error_line(diags)
    } else {
        None
    };
    StatusBar {
        performance: cells,
        view,
        document,
        errors: error_badge(errors),
        error_line: line,
        message,
    }
}

} // verus!
