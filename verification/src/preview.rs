//! The preview: which pages are drawn, where it goes, and what a click on it means.

use vstd::prelude::*;
use vstd::string::*;

use crate::decimal;
use crate::decimal::decimal;
use crate::text;
use crate::text::optional;

verus! {

/// How many pages are drawn beyond those that are seen.
pub const PAGE_PREFETCH: usize = 1;

/// How many milliseconds pass between looks at the cursor.
pub const FOLLOW_POLL_MS: u64 = 400;

/// For how many milliseconds the preview is left where the user has moved it.
pub const FOLLOW_SILENCE_MS: u64 = 3000;

/// How many milliseconds a jump stays marked.
pub const FLASH_MS: u64 = 1400;

pub open spec fn least(a: int, b: int) -> int {
    if a < b {
        a
    } else {
        b
    }
}

/// The first and last page that are drawn where `top` to `bottom` are seen.
pub open spec fn drawn(pages: nat, top: nat, bottom: nat) -> (int, int) {
    let first = least(top as int, pages - 1);
    let last = least(bottom as int, pages - 1);
    (
        if first < PAGE_PREFETCH {
            0
        } else {
            first - PAGE_PREFETCH
        },
        least(last + PAGE_PREFETCH, pages - 1),
    )
}

/// The pages among the first `n` that are to be let go: those that are held but lie
/// outside.
pub open spec fn to_drop(held: Seq<bool>, n: nat, lo: int, hi: int) -> Seq<usize>
    decreases n,
{
    if n == 0 {
        Seq::empty()
    } else {
        let i = n - 1;
        let before = to_drop(held, i as nat, lo, hi);
        if (i < lo || i > hi) && held[i] {
            before.push(i as usize)
        } else {
            before
        }
    }
}

/// The pages among the first `n` that are to be drawn: those that lie inside but are
/// not held.
pub open spec fn to_draw(held: Seq<bool>, n: nat, lo: int, hi: int) -> Seq<usize>
    decreases n,
{
    if n == 0 {
        Seq::empty()
    } else {
        let i = n - 1;
        let before = to_draw(held, i as nat, lo, hi);
        if lo <= i <= hi && !held[i] {
            before.push(i as usize)
        } else {
            before
        }
    }
}

/// What is held once what lies outside was let go.
pub open spec fn held_inside(held: Seq<bool>, lo: int, hi: int) -> Seq<bool> {
    Seq::new(held.len(), |i: int| lo <= i <= hi && held[i])
}

/// What is to be done to the pages.
pub struct PagePlan {
    pub drop: Vec<usize>,
    pub draw: Vec<usize>,
}

/// The pages, and which of them are held as pictures.
pub struct Viewport {
    pub held: Vec<bool>,
    /// The first and last page that were drawn last.
    pub live: Option<(usize, usize)>,
    /// The first page that is seen.
    pub current: usize,
}

impl Viewport {
    /// New pages, none of them drawn.
    pub fn reset(&mut self, pages: usize)
        ensures
            final(self).held@ == Seq::new(pages as nat, |i: int| false),
            final(self).live is None,
            final(self).current == old(self).current,
    {
        let mut held: Vec<bool> = Vec::new();
        while held.len() < pages
            invariant
                held@.len() <= pages,
                forall|i: int| 0 <= i < held@.len() ==> !held@[i],
            decreases pages - held@.len(),
        {
            held.push(false);
        }
        assert(held@ =~= Seq::new(pages as nat, |i: int| false));
        self.held = held;
        self.live = None;
    }

    /// Pages `top` to `bottom` are seen of a document with `pages` pages: what is to be
    /// done, unless nothing has changed.
    pub fn sync_visible_pages(&mut self, pages: usize, top: usize, bottom: usize) -> (r: Option<
        PagePlan,
    >)
        requires
            pages <= usize::MAX - PAGE_PREFETCH,
        ensures
            pages == 0 || old(self).held@.len() != pages ==> r is None && *final(self) == *old(
                self,
            ),
            pages > 0 && old(self).held@.len() == pages ==> {
                let (lo, hi) = drawn(pages as nat, top as nat, bottom as nat);
                let same = old(self).live matches Some((a, b)) && a == lo && b == hi;
                &&& final(self).current == least(top as int, pages - 1)
                &&& r is None == same
                &&& same ==> final(self).live == old(self).live && final(self).held@ == old(
                    self,
                ).held@
                &&& !same ==> {
                    &&& final(self).live == Some((lo as usize, hi as usize))
                    &&& r->0.drop@ == to_drop(old(self).held@, pages as nat, lo, hi)
                    &&& r->0.draw@ == to_draw(old(self).held@, pages as nat, lo, hi)
                    &&& final(self).held@ == held_inside(old(self).held@, lo, hi)
                }
            },
    {
        if pages == 0 || self.held.len() != pages {
            return None;
        }
        let first: usize = if top < pages - 1 {
            top
        } else {
            pages - 1
        };
        let last: usize = if bottom < pages - 1 {
            bottom
        } else {
            pages - 1
        };
        let lo: usize = if first < PAGE_PREFETCH {
            0
        } else {
            first - PAGE_PREFETCH
        };
        let hi: usize = if last + PAGE_PREFETCH < pages - 1 {
            last + PAGE_PREFETCH
        } else {
            pages - 1
        };
        self.current = first;
        if let Some((a, b)) = self.live {
            if a == lo && b == hi {
                return None;
            }
        }
        self.live = Some((lo, hi));
        let mut drop: Vec<usize> = Vec::new();
        let mut draw: Vec<usize> = Vec::new();
        let ghost before = self.held@;
        let mut i: usize = 0;
        while i < pages
            invariant
                i <= pages,
                pages == before.len(),
                self.held@.len() == pages,
                self.live == Some((lo, hi)),
                self.current == first,
                drop@ == to_drop(before, i as nat, lo as int, hi as int),
                draw@ == to_draw(before, i as nat, lo as int, hi as int),
                forall|j: int|
                    0 <= j < i ==> #[trigger] self.held@[j] == ((lo <= j && j <= hi) && before[j]),
                forall|j: int| i <= j < pages ==> #[trigger] self.held@[j] == before[j],
            decreases pages - i,
        {
            let outside = i < lo || i > hi;
            let ghost was = self.held@;
            if outside && self.held[i] {
                drop.push(i);
                self.held.set(i, false);
            } else if !outside && !self.held[i] {
                draw.push(i);
            }
            assert(self.held@[i as int] == (lo <= i <= hi && before[i as int]));
            assert(forall|j: int| 0 <= j < i ==> #[trigger] self.held@[j] == was[j]);
            i += 1;
        }
        assert(self.held@ =~= held_inside(before, lo as int, hi as int));
        Some(PagePlan { drop, draw })
    }

    /// Takes note of whether a page could be drawn.
    pub fn drew(&mut self, page: usize, ok: bool)
        requires
            page < old(self).held@.len(),
        ensures
            final(self).held@ == old(self).held@.update(page as int, ok),
            final(self).live == old(self).live,
            final(self).current == old(self).current,
    {
        self.held.set(page, ok);
    }

    /// Goes to a page, or to the last where there are fewer. Says which, and so.
    pub fn go_to_page(&mut self, page: usize) -> (r: Option<(usize, String)>)
        ensures
            r is None == (old(self).held@.len() == 0),
            final(self).held@ == old(self).held@,
            final(self).live == old(self).live,
            r is None ==> final(self).current == old(self).current,
            r matches Some((p, message)) ==> {
                &&& p == least(page as int, old(self).held@.len() - 1)
                &&& final(self).current == p
                &&& message@ == "第 "@ + decimal((p + 1) as nat) + " / "@ + decimal(
                    old(self).held@.len(),
                ) + " 页"@
            },
    {
        let n: usize = self.held.len();
        if n == 0 {
            return None;
        }
        let p: usize = if page < n - 1 {
            page
        } else {
            n - 1
        };
        self.current = p;
        let here = decimal::show_size(p + 1);
        let all = decimal::show_size(n);
        let mut message = text::three("第 ", here.as_str(), " / ");
        message.append(all.as_str());
        message.append(" 页");
        Some((p, message))
    }
}

/// A page for a key: the next, the one before, the first or the last.
#[derive(Clone, Copy, PartialEq, Eq, Debug, Structural)]
pub enum PageKey {
    Next,
    Prev,
    First,
    Last,
}

/// The page that a key leads to.
pub fn page_for(key: PageKey, current: usize, pages: usize) -> (r: usize)
    requires
        current < usize::MAX,
    ensures
        r == match key {
            PageKey::Next => current + 1,
            PageKey::Prev => if current == 0 {
                0
            } else {
                current - 1
            },
            PageKey::First => 0,
            PageKey::Last => if pages == 0 {
                0
            } else {
                pages - 1
            },
        },
{
    match key {
        PageKey::Next => current + 1,
        PageKey::Prev => if current == 0 {
            0
        } else {
            current - 1
        },
        PageKey::First => 0,
        PageKey::Last => if pages == 0 {
            0
        } else {
            pages - 1
        },
    }
}

proof fn lemma_plan_covers(held: Seq<bool>, n: nat, lo: int, hi: int, i: int)
    requires
        0 <= i < n <= held.len() <= usize::MAX,
        lo <= i <= hi,
        !held[i],
    ensures
        to_draw(held, n, lo, hi).contains(i as usize),
    decreases n,
{
    let k = n - 1;
    if i < k {
        lemma_plan_covers(held, k as nat, lo, hi, i);
        let before = to_draw(held, k as nat, lo, hi);
        let m = choose|m: int| 0 <= m < before.len() && before[m] == i as usize;
        assert(to_draw(held, n, lo, hi)[m] == i as usize);
    } else {
        let d = to_draw(held, n, lo, hi);
        assert(d[d.len() - 1] == i as usize);
    }
}

/// Every page that is seen is held or about to be drawn, and nothing is held that lies
/// more than a page away from what is seen.
pub proof fn seen_pages_are_drawn(held: Seq<bool>, pages: nat, top: nat, bottom: nat, i: int)
    requires
        held.len() == pages <= usize::MAX,
        0 <= i < pages,
        top <= bottom,
    ensures
        ({
            let (lo, hi) = drawn(pages, top, bottom);
            let now = held_inside(held, lo, hi);
            &&& top <= i <= bottom ==> now[i] || to_draw(held, pages, lo, hi).contains(i as usize)
            &&& now[i] ==> least(top as int, pages - 1) - PAGE_PREFETCH <= i <= bottom + PAGE_PREFETCH
        }),
{
    let (lo, hi) = drawn(pages, top, bottom);
    if top <= i <= bottom && !held[i] {
        lemma_plan_covers(held, pages, lo, hi, i);
    }
}

/// What following the cursor comes to at a look.
#[derive(Clone, Copy, PartialEq, Eq, Debug, Structural)]
pub enum Follow {
    /// It was switched off.
    Stop,
    /// Nothing is to be done.
    Wait,
    /// The preview goes where the cursor is.
    Go,
}

/// What following the cursor comes to. `scrolled` is how many milliseconds ago the user
/// moved the preview.
pub fn follow(on: bool, scrolled: Option<u64>, cursor: usize, last: usize) -> (r: Follow)
    ensures
        r == if !on {
            Follow::Stop
        } else if (scrolled matches Some(ms) && ms < FOLLOW_SILENCE_MS) || cursor == last {
            Follow::Wait
        } else {
            Follow::Go
        },
{
    if !on {
        return Follow::Stop;
    }
    if let Some(ms) = scrolled {
        if ms < FOLLOW_SILENCE_MS {
            return Follow::Wait;
        }
    }
    if cursor != last {
        Follow::Go
    } else {
        Follow::Wait
    }
}

/// What a press on a page means.
#[derive(Clone, Copy, PartialEq, Eq, Debug, Structural)]
pub enum PageClick {
    Nothing,
    OpenLink,
    JumpToSource,
}

/// What a press on a page means: a second one jumps, a first one with Ctrl opens a link.
pub fn page_click(clicks: usize, control: bool) -> (r: PageClick)
    ensures
        r == if clicks == 1 && control {
            PageClick::OpenLink
        } else if clicks < 2 {
            PageClick::Nothing
        } else {
            PageClick::JumpToSource
        },
{
    if clicks == 1 && control {
        PageClick::OpenLink
    } else if clicks < 2 {
        PageClick::Nothing
    } else {
        PageClick::JumpToSource
    }
}

/// Whether a press in the editor jumps to the preview.
pub fn editor_click(clicks: usize) -> (r: bool)
    ensures
        r == (clicks >= 2),
{
    clicks >= 2
}

/// Whether the index of places is to be built: there are pages, it was not built for
/// them, they belong to the text as it is, and the text can be had.
pub fn needs_index(has_document: bool, built: bool, usable: bool, has_source: bool) -> (r: bool)
    ensures
        r == (has_document && !built && usable && has_source),
{
    has_document && !built && usable && has_source
}

/// What is said where a jump to the preview finds no place.
pub fn no_place_message(has_document: bool, usable: bool) -> (r: &'static str)
    ensures
        r@ == if !has_document {
            "还没排过版，没地方可跳"@
        } else if usable {
            "这一份文档里没有可定位的文字"@
        } else {
            "上一次排版没成功，跳转暂时关掉（预览是旧结果）"@
        },
{
    if !has_document {
        "还没排过版，没地方可跳"
    } else if usable {
        "这一份文档里没有可定位的文字"
    } else {
        "上一次排版没成功，跳转暂时关掉（预览是旧结果）"
    }
}

/// What is said of a jump from a line (counted from 0) to a page.
pub fn forward_message(line: usize, page: usize) -> (r: String)
    requires
        line < usize::MAX,
        page < usize::MAX,
    ensures
        r@ == "第 "@ + decimal((line + 1) as nat) + " 行 → 第 "@ + decimal((page + 1) as nat)
            + " 页"@,
{
    let l = decimal::show_size(line + 1);
    let p = decimal::show_size(page + 1);
    let mut out = text::three("第 ", l.as_str(), " 行 → 第 ");
    out.append(p.as_str());
    out.append(" 页");
    out
}

/// What is said of a jump from a page: to a line, or that there is no text.
pub fn inverse_message(page: usize, line: Option<usize>) -> (r: String)
    requires
        page < usize::MAX,
        line matches Some(l) ==> l < usize::MAX,
    ensures
        r@ == match line {
            Some(l) => "显示区 → 第 "@ + decimal((l + 1) as nat) + " 行（第 "@ + decimal(
                (page + 1) as nat,
            ) + " 页）"@,
            None => "第 "@ + decimal((page + 1) as nat) + " 页这里没有可定位的文字"@,
        },
{
    let p = decimal::show_size(page + 1);
    match line {
        Some(l) => {
            let number = decimal::show_size(l + 1);
            let mut out = text::three("显示区 → 第 ", number.as_str(), " 行（第 ");
            out.append(p.as_str());
            out.append(" 页）");
            out
        },
        None => text::three("第 ", p.as_str(), " 页这里没有可定位的文字"),
    }
}

/// What was found where the user looked for a link.
pub enum Link {
    Url(String),
    /// A place in the document.
    Inside,
    Absent,
}

/// The address to open, if any, and what is said.
pub fn open_link(link: &Link) -> (r: (Option<String>, String))
    ensures
        optional(r.0) == match *link {
            Link::Url(url) => Some(url@),
            _ => None,
        },
        r.1@ == match *link {
            Link::Url(url) => "打开 "@ + url@,
            Link::Inside => "这是文档内部的链接，暂时打不开（目前只支持网址）"@,
            Link::Absent => "这里没有链接"@,
        },
{
    match link {
        Link::Url(url) => (Some(url.clone()), text::both("打开 ", url.as_str())),
        Link::Inside => (
            None,
            "这是文档内部的链接，暂时打不开（目前只支持网址）".to_owned(),
        ),
        Link::Absent => (None, "这里没有链接".to_owned()),
    }
}

/// What becomes of the pages after the document was set.
#[derive(Clone, Copy, PartialEq, Eq, Debug, Structural)]
pub enum Redraw {
    /// They are the same.
    Keep,
    /// They are new.
    Draw,
    /// There are none.
    Clear,
}

/// What becomes of the pages. `has_pages` says whether there are any, `same` whether
/// they are those that were there.
pub fn redraw(has_pages: bool, same: bool) -> (r: Redraw)
    ensures
        r == if !has_pages {
            Redraw::Clear
        } else if same {
            Redraw::Keep
        } else {
            Redraw::Draw
        },
{
    if !has_pages {
        Redraw::Clear
    } else if same {
        Redraw::Keep
    } else {
        Redraw::Draw
    }
}

/// What is said of an attempt to export: there is nothing to export, it succeeded, the
/// file could not be written, or the document has faults.
pub enum Export {
    Nothing,
    Done(String),
    NotWritten(String),
    Faults(usize),
}

/// What is said of an attempt to export.
pub fn export_message(e: &Export) -> (r: String)
    ensures
        r@ == match *e {
            Export::Nothing => "还没有可导出的排版结果"@,
            Export::Done(path) => "已导出 "@ + path@,
            Export::NotWritten(why) => "写 PDF 失败："@ + why@,
            Export::Faults(n) => "导出失败："@ + decimal(n as nat) + " 条诊断"@,
        },
{
    match e {
        Export::Nothing => "还没有可导出的排版结果".to_owned(),
        Export::Done(path) => text::both("已导出 ", path.as_str()),
        Export::NotWritten(why) => text::both("写 PDF 失败：", why.as_str()),
        Export::Faults(n) => {
            let count = decimal::show_size(*n);
            text::three("导出失败：", count.as_str(), " 条诊断")
        },
    }
}

/// What comes of formatting a text.
pub enum Formatted {
    /// It was formatted already.
    Same,
    /// It is replaced.
    Changed(String),
    /// It could not be formatted.
    Failed,
}

/// What comes of formatting a text, and what is said.
pub fn format_document(text: &str, formatted: Result<String, String>) -> (r: (Formatted, String))
    ensures
        match formatted {
            Ok(t) => if t@ == text@ {
                r.0 is Same && r.1@ == "已经是格式化状态"@
            } else {
                (r.0 matches Formatted::Changed(n) && n@ == t@) && r.1@ == "已格式化"@
            },
            Err(why) => r.0 is Failed && r.1@ == "格式化失败（语法可能不完整）："@ + why@,
        },
{
    match formatted {
        Ok(t) => if text::same(t.as_str(), text) {
            (Formatted::Same, "已经是格式化状态".to_owned())
        } else {
            (Formatted::Changed(t), "已格式化".to_owned())
        },
        Err(why) => (
            Formatted::Failed,
            text::both("格式化失败（语法可能不完整）：", why.as_str()),
        ),
    }
}

/// How many bytes pictures take, four for each point. The sizes are widths and heights.
pub open spec fn picture_bytes(sizes: Seq<(u32, u32)>) -> nat
    decreases sizes.len(),
{
    if sizes.len() == 0 {
        0
    } else {
        picture_bytes(sizes.drop_last()) + (sizes.last().0 as nat) * (sizes.last().1 as nat) * 4
    }
}

proof fn lemma_bytes_of_some(sizes: Seq<(u32, u32)>, n: int)
    requires
        0 <= n <= sizes.len(),
    ensures
        picture_bytes(sizes.take(n)) <= picture_bytes(sizes),
    decreases sizes.len(),
{
    if n < sizes.len() {
        assert(sizes.drop_last().take(n) =~= sizes.take(n));
        lemma_bytes_of_some(sizes.drop_last(), n);
        assert((sizes.last().0 as nat) * (sizes.last().1 as nat) >= 0) by (nonlinear_arith);
    } else {
        assert(sizes.take(n) =~= sizes);
    }
}

/// How many bytes the pictures that are held take.
pub fn texture_bytes(sizes: &Vec<(u32, u32)>) -> (r: u64)
    requires
        picture_bytes(sizes@) <= u64::MAX,
    ensures
        r == picture_bytes(sizes@),
{
    let mut total: u64 = 0;
    let mut i: usize = 0;
    while i < sizes.len()
        invariant
            i <= sizes@.len(),
            picture_bytes(sizes@) <= u64::MAX,
            total == picture_bytes(sizes@.take(i as int)),
        decreases sizes@.len() - i,
    {
        proof {
            assert(sizes@.take(i + 1).drop_last() =~= sizes@.take(i as int));
            lemma_bytes_of_some(sizes@, i + 1);
        }
        let (w, h) = sizes[i];
        assert(0 <= (w as nat) * (h as nat)) by (nonlinear_arith);
        let points: u64 = (w as u64) * (h as u64);
        total += points * 4;
        i += 1;
    }
    assert(sizes@.take(i as int) =~= sizes@);
    total
}

proof fn lemma_drop_covers(held: Seq<bool>, n: nat, lo: int, hi: int, i: int)
    requires
        0 <= i < n <= held.len() <= usize::MAX,
        i < lo || i > hi,
        held[i],
    ensures
        to_drop(held, n, lo, hi).contains(i as usize),
    decreases n,
{
    let k = n - 1;
    let d = to_drop(held, n, lo, hi);
    if i < k {
        lemma_drop_covers(held, k as nat, lo, hi, i);
        let before = to_drop(held, k as nat, lo, hi);
        let m = choose|m: int| 0 <= m < before.len() && before[m] == i as usize;
        assert(d[m] == i as usize);
    } else {
        assert(d[d.len() - 1] == i as usize);
    }
}

proof fn lemma_plans_are_needed(held: Seq<bool>, n: nat, lo: int, hi: int)
    requires
        n <= held.len() <= usize::MAX,
    ensures
        forall|k: int|
            0 <= k < to_drop(held, n, lo, hi).len() ==> {
                let i = #[trigger] to_drop(held, n, lo, hi)[k];
                i < n && held[i as int] && (i < lo || i > hi)
            },
        forall|k: int|
            0 <= k < to_draw(held, n, lo, hi).len() ==> {
                let i = #[trigger] to_draw(held, n, lo, hi)[k];
                i < n && !held[i as int] && lo <= i <= hi
            },
    decreases n,
{
    if n > 0 {
        lemma_plans_are_needed(held, (n - 1) as nat, lo, hi);
        let (a, b) = (to_drop(held, (n - 1) as nat, lo, hi), to_drop(held, n, lo, hi));
        let (c, d) = (to_draw(held, (n - 1) as nat, lo, hi), to_draw(held, n, lo, hi));
        assert forall|k: int| 0 <= k < b.len() implies ({
            let i = #[trigger] b[k];
            i < n && held[i as int] && (i < lo || i > hi)
        }) by {
            if k < a.len() {
                assert(b[k] == a[k]);
            }
        }
        assert forall|k: int| 0 <= k < d.len() implies ({
            let i = #[trigger] d[k];
            i < n && !held[i as int] && lo <= i <= hi
        }) by {
            if k < c.len() {
                assert(d[k] == c[k]);
            }
        }
    }
}

/// Every picture that lies outside is let go, and only such; and only pages are drawn that
/// lie inside and are not held.
pub proof fn pictures_outside_are_let_go(held: Seq<bool>, lo: int, hi: int, i: int)
    requires
        held.len() <= usize::MAX,
        0 <= i < held.len(),
    ensures
        to_drop(held, held.len(), lo, hi).contains(i as usize) <==> held[i] && (i < lo || i > hi),
        to_draw(held, held.len(), lo, hi).contains(i as usize) <==> !held[i] && lo <= i <= hi,
{
    lemma_plans_are_needed(held, held.len(), lo, hi);
    if held[i] && (i < lo || i > hi) {
        lemma_drop_covers(held, held.len(), lo, hi, i);
    }
    if !held[i] && lo <= i <= hi {
        lemma_plan_covers(held, held.len(), lo, hi, i);
    }
}

/// The pages that are drawn are those that are seen and one on either side, as far as there
/// are any.
pub proof fn one_page_on_either_side_is_drawn(pages: nat, top: nat, bottom: nat)
    requires
        top <= bottom < pages,
    ensures
        drawn(pages, top, bottom).0 == if top == 0 {
            0
        } else {
            top - 1
        },
        drawn(pages, top, bottom).1 == if bottom + 1 == pages {
            bottom
        } else {
            bottom + 1
        },
{
}

} // verus!
