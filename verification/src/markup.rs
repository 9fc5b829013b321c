//! One-click markup: what a toolbar button does to the text.

use std::ops::Range;

use vstd::prelude::*;
use vstd::string::*;

use crate::offset;
use crate::offset::{bytes, line_start, newlines, on_boundary};
use crate::text;
use crate::text::begins;

verus! {

/// The buttons of the toolbar.
#[derive(Debug, Clone, Copy, PartialEq, Eq)]
pub enum Markup {
    Bold,
    Italic,
    Super,
    Sub,
    Strike,
    Highlight,
    CodeBlock,
    AlignLeft,
    AlignCenter,
    AlignRight,
    Justify,
    Indent,
    FontFamily,
    BulletList,
    NumberList,
    Quote,
    HeadingLevel1,
    HeadingNumbering,
    TitleTemplate,
    Math,
    Image,
    Figure,
    Table,
    Pagebreak,
    Outline,
    Link,
    Footnote,
    /// Text in a colour, by its name.
    TextColor(&'static str),
}

/// The names of the colours that text can have.
pub open spec fn color_names() -> Seq<Seq<char>> {
    seq![
        "red"@,
        "orange"@,
        "yellow"@,
        "green"@,
        "aqua"@,
        "blue"@,
        "purple"@,
        "gray"@,
        "black"@,
    ]
}

/// The names of the colours that text can have.
pub fn colors() -> (r: Vec<&'static str>)
    ensures
        r@.map_values(|s: &'static str| s@) == color_names(),
{
    let r = vec!["red", "orange", "yellow", "green", "aqua", "blue", "purple", "gray", "black"];
    assert(r@.map_values(|s: &'static str| s@) =~= color_names());
    r
}

/// The groups of buttons; colours and AI have menus of their own, so their groups
/// are empty.
pub open spec fn button_groups() -> Seq<Seq<Markup>> {
    seq![
        seq![Markup::Bold, Markup::Italic],
        seq![Markup::AlignLeft, Markup::AlignCenter, Markup::AlignRight],
        seq![
            Markup::Justify,
            Markup::Indent,
            Markup::FontFamily,
            Markup::HeadingLevel1,
            Markup::HeadingNumbering,
            Markup::TitleTemplate,
        ],
        seq![
            Markup::Super,
            Markup::Sub,
            Markup::Math,
            Markup::CodeBlock,
            Markup::Strike,
            Markup::Highlight,
            Markup::Quote,
            Markup::BulletList,
            Markup::NumberList,
        ],
        seq![
            Markup::Image,
            Markup::Figure,
            Markup::Table,
            Markup::Pagebreak,
            Markup::Outline,
            Markup::Link,
            Markup::Footnote,
        ],
        Seq::empty(),
        Seq::empty(),
    ]
}

impl Markup {
    /// The groups of buttons, a divider between any two.
    pub fn groups() -> (r: Vec<Vec<Self>>)
        ensures
            r@.map_values(|g: Vec<Markup>| g@) == button_groups(),
    {
        let r = vec![
            vec![Markup::Bold, Markup::Italic],
            vec![Markup::AlignLeft, Markup::AlignCenter, Markup::AlignRight],
            vec![
                Markup::Justify,
                Markup::Indent,
                Markup::FontFamily,
                Markup::HeadingLevel1,
                Markup::HeadingNumbering,
                Markup::TitleTemplate,
            ],
            vec![
                Markup::Super,
                Markup::Sub,
                Markup::Math,
                Markup::CodeBlock,
                Markup::Strike,
                Markup::Highlight,
                Markup::Quote,
                Markup::BulletList,
                Markup::NumberList,
            ],
            vec![
                Markup::Image,
                Markup::Figure,
                Markup::Table,
                Markup::Pagebreak,
                Markup::Outline,
                Markup::Link,
                Markup::Footnote,
            ],
            Vec::new(),
            Vec::new(),
        ];
        proof {
            let g = button_groups();
            assert(r@[0]@ =~= g[0]);
            assert(r@[1]@ =~= g[1]);
            assert(r@[2]@ =~= g[2]);
            assert(r@[3]@ =~= g[3]);
            assert(r@[4]@ =~= g[4]);
            assert(r@[5]@ =~= g[5]);
            assert(r@[6]@ =~= g[6]);
            assert(r@.map_values(|g: Vec<Markup>| g@) =~= g);
        }
        r
    }

    /// Every button, those of the groups first, then one for each colour.
    pub fn all_buttons() -> (r: Vec<Self>)
        ensures
            r@.len() == 36,
            r@.take(27) == button_groups().flatten(),
            forall|k: int|
                0 <= k < 9 ==> (#[trigger] r@[27 + k] matches Markup::TextColor(name) && name@
                    == color_names()[k]),
    {
        let groups = Markup::groups();
        let ghost g = button_groups();
        let mut out: Vec<Markup> = Vec::new();
        let mut i: usize = 0;
        proof {
            assert(g.take(0) =~= Seq::empty());
            reveal_with_fuel(Seq::flatten, 1);
            assert(g.take(0).flatten() =~= out@);
        }
        while i < groups.len()
            invariant
                i <= groups@.len(),
                g == button_groups(),
                groups@.map_values(|g: Vec<Markup>| g@) == g,
                out@ == g.take(i as int).flatten(),
            decreases groups@.len() - i,
        {
            let ghost before = out@;
            let mut k: usize = 0;
            assert(g[i as int] == groups@[i as int]@);
            while k < groups[i].len()
                invariant
                    i < groups@.len(),
                    k <= groups@[i as int]@.len(),
                    out@ == before + groups@[i as int]@.take(k as int),
                decreases groups@[i as int]@.len() - k,
            {
                let one = groups[i][k];
                out.push(one);
                assert(out@ =~= before + groups@[i as int]@.take(k + 1));
                k += 1;
            }
            proof {
                assert(groups@[i as int]@.take(k as int) =~= g[i as int]);
                assert(g.take(i + 1) =~= g.take(i as int).push(g[i as int]));
                g.take(i as int).lemma_flatten_push(g[i as int]);
            }
            i += 1;
        }
        proof {
            assert(g.take(7) =~= g);
            lemma_button_count();
        }
        let names = colors();
        let mut k: usize = 0;
        let ghost base = out@;
        while k < names.len()
            invariant
                k <= names@.len(),
                names@.map_values(|s: &'static str| s@) == color_names(),
                base.len() == 27,
                out@.len() == 27 + k,
                out@.take(27) == base,
                forall|j: int|
                    0 <= j < k ==> (#[trigger] out@[27 + j] matches Markup::TextColor(name) && name@
                        == color_names()[j]),
            decreases names@.len() - k,
        {
            let ghost before = out@;
            out.push(Markup::TextColor(names[k]));
            assert(out@.take(27) =~= before.take(27));
            assert(color_names()[k as int] == names@[k as int]@);
            k += 1;
        }
        assert(names@.len() == color_names().len());
        out
    }

    /// What the button says.
    pub open spec fn label_text(self) -> Seq<char> {
        match self {
            Markup::Bold => "B"@,
            Markup::Italic => "I"@,
            Markup::Super => "x²"@,
            Markup::Sub => "x₂"@,
            Markup::Strike => "删除线"@,
            Markup::Highlight => "高亮"@,
            Markup::CodeBlock => "<>"@,
            Markup::AlignLeft => "居左"@,
            Markup::AlignCenter => "居中"@,
            Markup::AlignRight => "居右"@,
            Markup::Justify => "两端"@,
            Markup::Indent => "缩进"@,
            Markup::FontFamily => "字体"@,
            Markup::BulletList => "• 列表"@,
            Markup::NumberList => "1. 列表"@,
            Markup::Quote => "引用"@,
            Markup::HeadingLevel1 => "标题"@,
            Markup::HeadingNumbering => "编号"@,
            Markup::TitleTemplate => "题头"@,
            Markup::Math => "$"@,
            Markup::Image => "图片"@,
            Markup::Figure => "图注"@,
            Markup::Table => "表格"@,
            Markup::Pagebreak => "分页"@,
            Markup::Outline => "目录"@,
            Markup::Link => "链接"@,
            Markup::Footnote => "脚注"@,
            Markup::TextColor(name) => name@,
        }
    }

    /// What the button says.
    pub fn label(self) -> (r: &'static str)
        ensures
            r@ == self.label_text(),
    {
        match self {
            Markup::Bold => "B",
            Markup::Italic => "I",
            Markup::Super => "x²",
            Markup::Sub => "x₂",
            Markup::Strike => "删除线",
            Markup::Highlight => "高亮",
            Markup::CodeBlock => "<>",
            Markup::AlignLeft => "居左",
            Markup::AlignCenter => "居中",
            Markup::AlignRight => "居右",
            Markup::Justify => "两端",
            Markup::Indent => "缩进",
            Markup::FontFamily => "字体",
            Markup::BulletList => "• 列表",
            Markup::NumberList => "1. 列表",
            Markup::Quote => "引用",
            Markup::HeadingLevel1 => "标题",
            Markup::HeadingNumbering => "编号",
            Markup::TitleTemplate => "题头",
            Markup::Math => "$",
            Markup::Image => "图片",
            Markup::Figure => "图注",
            Markup::Table => "表格",
            Markup::Pagebreak => "分页",
            Markup::Outline => "目录",
            Markup::Link => "链接",
            Markup::Footnote => "脚注",
            Markup::TextColor(name) => name,
        }
    }

    /// What is said of the button: what it puts in.
    pub open spec fn hint_text(self) -> Seq<char> {
        match self {
            Markup::Bold => "包住选中：*粗体*"@,
            Markup::Italic => "包住选中：_斜体_"@,
            Markup::Super => "包住选中：上标"@,
            Markup::Sub => "包住选中：下标"@,
            Markup::Strike => "包住选中：删除线"@,
            Markup::Highlight => "包住选中：高亮"@,
            Markup::CodeBlock => "插入代码块 <>"@,
            Markup::AlignLeft => "包住选中：居左"@,
            Markup::AlignCenter => "包住选中：居中"@,
            Markup::AlignRight => "包住选中：居右"@,
            Markup::Justify => "插入 #set par(justify: true)（两端对齐）"@,
            Markup::Indent => "插入首行缩进 2em"@,
            Markup::FontFamily => "插入 #set text(font: \"Microsoft YaHei\")"@,
            Markup::BulletList => "插入无序列表项 -"@,
            Markup::NumberList => "插入有序列表项 +"@,
            Markup::Quote => "包住选中：引用块"@,
            Markup::HeadingLevel1 => "插入一级标题 = （到行首）"@,
            Markup::HeadingNumbering => "插入标题编号 #set heading(numbering: \"1.1\")"@,
            Markup::TitleTemplate => "插入文档题头模板"@,
            Markup::Math => "包住选中：$ 公式 $"@,
            Markup::Image => "插入图片（光标落在引号里）"@,
            Markup::Figure => "插入带题注的图"@,
            Markup::Table => "插入两列两行的表格骨架"@,
            Markup::Pagebreak => "插入分页"@,
            Markup::Outline => "插入目录 #outline()"@,
            Markup::Link => "包住选中：链接（光标落在引号里）"@,
            Markup::Footnote => "包住选中：脚注"@,
            Markup::TextColor(_) => "包住选中：换这个颜色"@,
        }
    }

    /// What is said of the button: what it puts in.
    pub fn hint(self) -> (r: &'static str)
        ensures
            r@ == self.hint_text(),
    {
        match self {
            Markup::Bold => "包住选中：*粗体*",
            Markup::Italic => "包住选中：_斜体_",
            Markup::Super => "包住选中：上标",
            Markup::Sub => "包住选中：下标",
            Markup::Strike => "包住选中：删除线",
            Markup::Highlight => "包住选中：高亮",
            Markup::CodeBlock => "插入代码块 <>",
            Markup::AlignLeft => "包住选中：居左",
            Markup::AlignCenter => "包住选中：居中",
            Markup::AlignRight => "包住选中：居右",
            Markup::Justify => "插入 #set par(justify: true)（两端对齐）",
            Markup::Indent => "插入首行缩进 2em",
            Markup::FontFamily => "插入 #set text(font: \"Microsoft YaHei\")",
            Markup::BulletList => "插入无序列表项 -",
            Markup::NumberList => "插入有序列表项 +",
            Markup::Quote => "包住选中：引用块",
            Markup::HeadingLevel1 => "插入一级标题 = （到行首）",
            Markup::HeadingNumbering => "插入标题编号 #set heading(numbering: \"1.1\")",
            Markup::TitleTemplate => "插入文档题头模板",
            Markup::Math => "包住选中：$ 公式 $",
            Markup::Image => "插入图片（光标落在引号里）",
            Markup::Figure => "插入带题注的图",
            Markup::Table => "插入两列两行的表格骨架",
            Markup::Pagebreak => "插入分页",
            Markup::Outline => "插入目录 #outline()",
            Markup::Link => "包住选中：链接（光标落在引号里）",
            Markup::Footnote => "包住选中：脚注",
            Markup::TextColor(_) => "包住选中：换这个颜色",
        }
    }
}

proof fn lemma_button_count()
    ensures
        button_groups().flatten().len() == 27,
{
    let g = button_groups();
    let e = Seq::<Seq<Markup>>::empty();
    assert(g =~= e.push(g[0]).push(g[1]).push(g[2]).push(g[3]).push(g[4]).push(g[5]).push(g[6]));
    e.lemma_flatten_push(g[0]);
    e.push(g[0]).lemma_flatten_push(g[1]);
    e.push(g[0]).push(g[1]).lemma_flatten_push(g[2]);
    e.push(g[0]).push(g[1]).push(g[2]).lemma_flatten_push(g[3]);
    e.push(g[0]).push(g[1]).push(g[2]).push(g[3]).lemma_flatten_push(g[4]);
    e.push(g[0]).push(g[1]).push(g[2]).push(g[3]).push(g[4]).lemma_flatten_push(g[5]);
    e.push(g[0]).push(g[1]).push(g[2]).push(g[3]).push(g[4]).push(g[5]).lemma_flatten_push(g[6]);
}

/// The skeleton of a table.
pub const TABLE: &'static str = "#table(\n  columns: 2,\n  [表头 1], [表头 2],\n  [单元格], [单元格],\n)";

/// A block of code.
pub const CODE_BLOCK: &'static str = "```\n代码\n```";

/// A figure with a caption.
pub const FIGURE: &'static str = "#figure(\n  image(\"\"),\n  caption: [],\n)";

/// A template for the title of a document.
pub const TITLE_TEMPLATE: &'static str = "#let title(size: 20pt, body) = {\n  set align(center)\n  set text(size: size, weight: \"bold\")\n  body\n}\n";

/// What a button does.
pub enum Plan {
    /// Puts texts before and after the selection, the caret before the last.
    Wrap(Seq<char>, Seq<char>),
    /// Puts two texts before the selection and one after it, the caret between the
    /// first two.
    Attach(Seq<char>, Seq<char>, Seq<char>),
    /// Puts a text in at the selection, the caret between its two parts.
    Insert(Seq<char>, Seq<char>),
    /// Puts a text in where the line begins, the caret after it.
    LineStart(Seq<char>),
}

/// What a button does.
pub open spec fn plan(kind: Markup) -> Plan {
    match kind {
        Markup::Bold => Plan::Wrap("*"@, "*"@),
        Markup::Italic => Plan::Wrap("_"@, "_"@),
        Markup::Super => Plan::Wrap("#super["@, "]"@),
        Markup::Sub => Plan::Wrap("#sub["@, "]"@),
        Markup::Strike => Plan::Wrap("#strike["@, "]"@),
        Markup::Highlight => Plan::Wrap("#highlight["@, "]"@),
        Markup::CodeBlock => Plan::Insert(CODE_BLOCK@, ""@),
        Markup::AlignLeft => Plan::Wrap("#align(left)["@, "]"@),
        Markup::AlignCenter => Plan::Wrap("#align(center)["@, "]"@),
        Markup::AlignRight => Plan::Wrap("#align(right)["@, "]"@),
        Markup::Justify => Plan::Insert("#set par(justify: true)"@, "\n"@),
        Markup::Indent => Plan::Insert("#set par(first-line-indent: (amount: 2em, all: true))"@, "\n"@),
        Markup::FontFamily => Plan::Insert("#set text(font: \"Microsoft YaHei\")"@, "\n"@),
        Markup::BulletList => Plan::LineStart("- "@),
        Markup::NumberList => Plan::LineStart("+ "@),
        Markup::Quote => Plan::Wrap("#quote["@, "]"@),
        Markup::HeadingLevel1 => Plan::LineStart("= "@),
        Markup::HeadingNumbering => Plan::Insert("#set heading(numbering: \"1.1\")"@, "\n"@),
        Markup::TitleTemplate => Plan::Insert(TITLE_TEMPLATE@, ""@),
        Markup::Math => Plan::Wrap("$"@, "$"@),
        Markup::Image => Plan::Insert("#image(\""@, "\")"@),
        Markup::Figure => Plan::Insert(FIGURE@, ""@),
        Markup::Table => Plan::Insert(TABLE@, ""@),
        Markup::Pagebreak => Plan::Insert("#pagebreak()"@, ""@),
        Markup::Outline => Plan::Insert("#outline()"@, ""@),
        Markup::Link => Plan::Attach("#link(\""@, "\")["@, "]"@),
        Markup::Footnote => Plan::Wrap("#footnote["@, "]"@),
        Markup::TextColor(name) => Plan::Wrap("#text(fill: "@ + name@ + ")["@, "]"@),
    }
}

/// A change of the text, and where the caret goes.
#[derive(Debug, PartialEq)]
pub struct Edit {
    /// The bytes that are replaced; none for an insertion.
    pub range: Range<usize>,
    pub text: String,
    /// The byte where the caret stands afterwards.
    pub cursor: usize,
}

impl Clone for Edit {
    fn clone(&self) -> (r: Self)
        ensures
            r == *self,
    {
        Edit {
            range: self.range.start..self.range.end,
            text: self.text.clone(),
            cursor: self.cursor,
        }
    }
}

impl Edit {
    /// The text after the change.
    pub fn apply(&self, text: &str) -> (r: String)
        requires
            self.range.start <= self.range.end,
            on_boundary(text@, self.range.start as int),
            on_boundary(text@, self.range.end as int),
        ensures
            bytes(r@) == bytes(text@).take(self.range.start as int) + bytes(self.text@) + bytes(
                text@,
            ).skip(self.range.end as int),
    {
        proof {
            offset::lemma_boundary_in_range(text@, self.range.start as int);
            offset::lemma_boundary_in_range(text@, self.range.end as int);
        }
        let head = offset::split(text, self.range.start).0;
        let tail = offset::split(text, self.range.end).1;
        let mut out = String::new();
        out.append(head);
        out.append(self.text.as_str());
        out.append(tail);
        proof {
            assert(Seq::<char>::empty() + head@ =~= head@);
            offset::lemma_bytes_concat(head@, self.text@);
            offset::lemma_bytes_concat(head@ + self.text@, tail@);
        }
        out
    }
}

/// The selection with both ends moved into the text.
pub open spec fn clamped(text: Seq<char>, selection: Range<usize>) -> (int, int) {
    let n = bytes(text).len() as int;
    let start = if selection.start <= n {
        selection.start as int
    } else {
        n
    };
    let end = if selection.end < start {
        start
    } else if selection.end <= n {
        selection.end as int
    } else {
        n
    };
    (start, end)
}

/// The byte where the line begins that byte `at` is on.
pub open spec fn start_of_line(text: Seq<char>, at: int) -> int {
    line_start(bytes(text), newlines(bytes(text).take(at)) as int)
}

/// `e` is what the button does to the selection.
pub open spec fn carries_out(
    p: Plan,
    text: Seq<char>,
    selection: (int, int),
    e: Edit,
) -> bool {
    let (start, end) = selection;
    match p {
        Plan::Wrap(prefix, suffix) => {
            &&& e.range.start == start
            &&& e.range.end == end
            &&& bytes(e.text@) == bytes(prefix) + bytes(text).subrange(start, end) + bytes(suffix)
            &&& e.cursor == start + bytes(prefix).len() + (end - start)
        },
        Plan::Attach(first, second, last) => {
            &&& e.range.start == start
            &&& e.range.end == end
            &&& bytes(e.text@) == bytes(first + second) + bytes(text).subrange(start, end) + bytes(
                last,
            )
            &&& e.cursor == start + bytes(first).len()
        },
        Plan::Insert(before, after) => {
            &&& e.range.start == start
            &&& e.range.end == start
            &&& e.text@ == before + after
            &&& e.cursor == start + bytes(before).len()
        },
        Plan::LineStart(snippet) => {
            &&& e.range.start == start_of_line(text, start)
            &&& e.range.end == start_of_line(text, start)
            &&& e.text@ == snippet
            &&& e.cursor == start_of_line(text, start) + bytes(snippet).len()
        },
    }
}

/// How many bytes a button adds.
pub open spec fn added_size(p: Plan) -> nat {
    match p {
        Plan::Wrap(prefix, suffix) => bytes(prefix).len() + bytes(suffix).len(),
        Plan::Attach(first, second, last) => bytes(first + second).len() + bytes(last).len(),
        Plan::Insert(before, after) => bytes(before).len() + bytes(after).len(),
        Plan::LineStart(snippet) => bytes(snippet).len(),
    }
}

/// The ends of the selection that the button reads lie between characters.
pub open spec fn readable(p: Plan, text: Seq<char>, selection: (int, int)) -> bool {
    match p {
        Plan::Wrap(_, _) => on_boundary(text, selection.0) && on_boundary(text, selection.1),
        Plan::Attach(_, _, _) => on_boundary(text, selection.0) && on_boundary(text, selection.1),
        Plan::Insert(_, _) => true,
        Plan::LineStart(_) => on_boundary(text, selection.0),
    }
}

fn wrap(prefix: &str, suffix: &str, text: &str, selection: Range<usize>) -> (r: Edit)
    requires
        selection.start <= selection.end,
        on_boundary(text@, selection.start as int),
        on_boundary(text@, selection.end as int),
        bytes(text@).len() + bytes(prefix@).len() + bytes(suffix@).len() <= usize::MAX,
    ensures
        carries_out(
            Plan::Wrap(prefix@, suffix@),
            text@,
            (selection.start as int, selection.end as int),
            r,
        ),
{
    let (start, end) = (selection.start, selection.end);
    proof {
        offset::lemma_boundary_in_range(text@, start as int);
        offset::lemma_boundary_in_range(text@, end as int);
    }
    let rest = offset::split(text, start).1;
    proof {
        offset::lemma_boundary_shift(text@, start as int, end as int, rest@);
    }
    let inner = offset::split(rest, end - start).0;
    let mut out = prefix.to_owned();
    out.append(inner);
    out.append(suffix);
    proof {
        offset::lemma_bytes_concat(prefix@, inner@);
        offset::lemma_bytes_concat(prefix@ + inner@, suffix@);
        assert(bytes(inner@) =~= bytes(text@).subrange(start as int, end as int));
    }
    Edit { range: start..end, text: out, cursor: start + offset::size(prefix) + (end - start) }
}

fn attach(first: &str, second: &str, last: &str, text: &str, selection: Range<usize>) -> (r: Edit)
    requires
        selection.start <= selection.end,
        on_boundary(text@, selection.start as int),
        on_boundary(text@, selection.end as int),
        bytes(text@).len() + bytes(first@ + second@).len() + bytes(last@).len() <= usize::MAX,
    ensures
        carries_out(
            Plan::Attach(first@, second@, last@),
            text@,
            (selection.start as int, selection.end as int),
            r,
        ),
{
    let start = selection.start;
    proof {
        offset::lemma_boundary_in_range(text@, start as int);
        offset::lemma_bytes_concat(first@, second@);
    }
    let prefix = text::both(first, second);
    let around = wrap(prefix.as_str(), last, text, selection);
    Edit { range: around.range, text: around.text, cursor: start + offset::size(first) }
}

fn insert(at: usize, before: &str, after: &str) -> (r: Edit)
    requires
        at + bytes(before@).len() + bytes(after@).len() <= usize::MAX,
    ensures
        r.range.start == at,
        r.range.end == at,
        r.text@ == before@ + after@,
        r.cursor == at + bytes(before@).len(),
{
    let mut out = before.to_owned();
    out.append(after);
    Edit { range: at..at, text: out, cursor: at + offset::size(before) }
}

fn line_start_of(text: &str, at: usize) -> (r: usize)
    requires
        at <= bytes(text@).len(),
    ensures
        r == start_of_line(text@, at as int),
        r <= at,
{
    let b = text.as_bytes();
    let mut i: usize = at;
    while i > 0 && b[i - 1] != 10
        invariant
            i <= at <= b@.len(),
            newlines(b@.take(i as int)) == newlines(b@.take(at as int)),
        decreases i,
    {
        proof {
            offset::lemma_newlines_step(b@, i - 1);
        }
        i -= 1;
    }
    proof {
        if i > 0 {
            offset::lemma_line_start_unique(b@, newlines(b@.take(at as int)) as int, i as int);
        } else {
            assert(b@.take(0) =~= Seq::empty());
        }
    }
    i
}

/// The change that a button makes. A selection outside the text is moved into it.
pub fn edit(text: &str, selection: Range<usize>, kind: Markup) -> (r: Edit)
    requires
        readable(plan(kind), text@, clamped(text@, selection)),
        bytes(text@).len() + added_size(plan(kind)) <= usize::MAX,
    ensures
        carries_out(plan(kind), text@, clamped(text@, selection), r),
{
    let n: usize = offset::size(text);
    let start: usize = if selection.start <= n {
        selection.start
    } else {
        n
    };
    let end: usize = if selection.end < start {
        start
    } else if selection.end <= n {
        selection.end
    } else {
        n
    };
    proof {
        reveal_strlit("");
        assert(bytes(""@) =~= Seq::empty());
    }
    match kind {
        Markup::Bold => wrap("*", "*", text, start..end),
        Markup::Italic => wrap("_", "_", text, start..end),
        Markup::Super => wrap("#super[", "]", text, start..end),
        Markup::Sub => wrap("#sub[", "]", text, start..end),
        Markup::Strike => wrap("#strike[", "]", text, start..end),
        Markup::Highlight => wrap("#highlight[", "]", text, start..end),
        Markup::CodeBlock => insert(start, CODE_BLOCK, ""),
        Markup::AlignLeft => wrap("#align(left)[", "]", text, start..end),
        Markup::AlignCenter => wrap("#align(center)[", "]", text, start..end),
        Markup::AlignRight => wrap("#align(right)[", "]", text, start..end),
        Markup::Justify => insert(start, "#set par(justify: true)", "\n"),
        Markup::Indent => insert(start, "#set par(first-line-indent: (amount: 2em, all: true))", "\n"),
        Markup::FontFamily => insert(start, "#set text(font: \"Microsoft YaHei\")", "\n"),
        Markup::BulletList => {
            let e = insert(line_start_of(text, start), "- ", "");
            assert(e.text@ =~= "- "@);
            e
        },
        Markup::NumberList => {
            let e = insert(line_start_of(text, start), "+ ", "");
            assert(e.text@ =~= "+ "@);
            e
        },
        Markup::Quote => wrap("#quote[", "]", text, start..end),
        Markup::HeadingLevel1 => {
            let e = insert(line_start_of(text, start), "= ", "");
            assert(e.text@ =~= "= "@);
            e
        },
        Markup::HeadingNumbering => insert(start, "#set heading(numbering: \"1.1\")", "\n"),
        Markup::TitleTemplate => insert(start, TITLE_TEMPLATE, ""),
        Markup::Math => wrap("$", "$", text, start..end),
        Markup::Image => insert(start, "#image(\"", "\")"),
        Markup::Figure => insert(start, FIGURE, ""),
        Markup::Table => insert(start, TABLE, ""),
        Markup::Pagebreak => insert(start, "#pagebreak()", ""),
        Markup::Outline => insert(start, "#outline()", ""),
        Markup::Link => attach("#link(\"", "\")[", "]", text, start..end),
        Markup::Footnote => wrap("#footnote[", "]", text, start..end),
        Markup::TextColor(name) => {
            let mut prefix = "#text(fill: ".to_owned();
            prefix.append(name);
            prefix.append(")[");
            wrap(prefix.as_str(), "]", text, start..end)
        },
    }
}

/// Wrapping keeps the text: what stood before the selection, the selection, and what
/// stood after it all stay, with the markup around the selection; the caret stands
/// before the closing part.
pub proof fn wrapping_keeps_the_text(
    text: Seq<char>,
    before: Seq<char>,
    selected: Seq<char>,
    after: Seq<char>,
    prefix: Seq<char>,
    suffix: Seq<char>,
    e: Edit,
    out: Seq<char>,
)
    requires
        text == before + selected + after,
        carries_out(
            Plan::Wrap(prefix, suffix),
            text,
            (bytes(before).len() as int, bytes(before + selected).len() as int),
            e,
        ),
        bytes(out) == bytes(text).take(e.range.start as int) + bytes(e.text@) + bytes(text).skip(
            e.range.end as int,
        ),
    ensures
        out == before + prefix + selected + suffix + after,
        e.cursor == bytes(before + prefix + selected).len(),
        on_boundary(out, e.cursor as int),
{
    offset::lemma_bytes_concat(before, selected);
    offset::lemma_bytes_concat(before + selected, after);
    offset::lemma_bytes_concat(before, prefix);
    offset::lemma_bytes_concat(before + prefix, selected);
    offset::lemma_bytes_concat(before + prefix + selected, suffix);
    offset::lemma_bytes_concat(before + prefix + selected + suffix, after);
    let (a, s, c) = (bytes(before), bytes(selected), bytes(after));
    assert(bytes(text) =~= a + s + c);
    assert(bytes(text).take(a.len() as int) =~= a);
    assert(bytes(text).subrange(a.len() as int, (a + s).len() as int) =~= s);
    assert(bytes(text).skip((a + s).len() as int) =~= c);
    assert(bytes(out) =~= bytes(before + prefix + selected + suffix + after));
    offset::lemma_bytes_injective(out, before + prefix + selected + suffix + after);
    assert(out =~= (before + prefix + selected) + (suffix + after));
    offset::lemma_prefix_boundary(before + prefix + selected, suffix + after);
}

/// Inserting keeps the text, and the caret stands between the two parts of what
/// was put in.
pub proof fn inserting_keeps_the_text(
    text: Seq<char>,
    before: Seq<char>,
    after: Seq<char>,
    first: Seq<char>,
    second: Seq<char>,
    e: Edit,
    out: Seq<char>,
)
    requires
        text == before + after,
        e.range.start == bytes(before).len(),
        e.range.end == bytes(before).len(),
        e.text@ == first + second,
        e.cursor == bytes(before).len() + bytes(first).len(),
        bytes(out) == bytes(text).take(e.range.start as int) + bytes(e.text@) + bytes(text).skip(
            e.range.end as int,
        ),
    ensures
        out == before + first + second + after,
        e.cursor == bytes(before + first).len(),
        on_boundary(out, e.cursor as int),
{
    offset::lemma_bytes_concat(before, after);
    offset::lemma_bytes_concat(first, second);
    offset::lemma_bytes_concat(before, first);
    offset::lemma_bytes_concat(before + first, second);
    offset::lemma_bytes_concat(before + first + second, after);
    let a = bytes(before);
    assert(bytes(text).take(a.len() as int) =~= a);
    assert(bytes(text).skip(a.len() as int) =~= bytes(after));
    assert(bytes(out) =~= bytes(before + first + second + after));
    offset::lemma_bytes_injective(out, before + first + second + after);
    assert(out =~= (before + first) + (second + after));
    offset::lemma_prefix_boundary(before + first, second + after);
}

/// A selection outside the text, or one that ends before it begins, gives the change
/// that the selection moved into the text gives.
pub proof fn selections_are_moved_into_the_text(
    text: Seq<char>,
    selection: Range<usize>,
    inside: Range<usize>,
    kind: Markup,
    e: Edit,
    f: Edit,
)
    requires
        (inside.start as int, inside.end as int) == clamped(text, selection),
        carries_out(plan(kind), text, clamped(text, selection), e),
        carries_out(plan(kind), text, clamped(text, inside), f),
    ensures
        clamped(text, inside) == clamped(text, selection),
        e.range.start == f.range.start,
        e.range.end == f.range.end,
        e.text@ == f.text@,
        e.cursor == f.cursor,
{
    if bytes(e.text@) == bytes(f.text@) {
        offset::lemma_bytes_injective(e.text@, f.text@);
    }
}

/// Wherever the ends of the selection lie between characters, the caret stands inside
/// the changed text, between two of its characters.
pub proof fn the_caret_stands_between_characters(
    text: Seq<char>,
    selection: Range<usize>,
    kind: Markup,
    e: Edit,
    out: Seq<char>,
)
    requires
        on_boundary(text, clamped(text, selection).0),
        on_boundary(text, clamped(text, selection).1),
        carries_out(plan(kind), text, clamped(text, selection), e),
        bytes(out) == bytes(text).take(e.range.start as int) + bytes(e.text@) + bytes(text).skip(
            e.range.end as int,
        ),
    ensures
        e.cursor <= bytes(out).len(),
        on_boundary(out, e.cursor as int),
{
    let (start, end) = clamped(text, selection);
    let b = bytes(text);
    offset::lemma_boundary_in_range(text, start);
    offset::lemma_boundary_in_range(text, end);
    offset::lemma_parts_at(text, start);
    let (before, rest) = offset::parts_at(text, start);
    offset::lemma_boundary_shift(text, start, end, rest);
    offset::lemma_parts_at(rest, end - start);
    let (selected, after) = offset::parts_at(rest, end - start);
    assert(before + selected + after =~= text);
    assert(bytes(before) =~= b.take(start));
    offset::lemma_bytes_concat(before, selected);
    match plan(kind) {
        Plan::Wrap(prefix, suffix) => {
            wrapping_keeps_the_text(text, before, selected, after, prefix, suffix, e, out);
            offset::lemma_boundary_in_range(out, e.cursor as int);
        },
        Plan::Attach(first, second, last) => {
            offset::lemma_bytes_concat(first + second, selected);
            offset::lemma_bytes_concat(first + second + selected, last);
            assert(bytes(selected) =~= b.subrange(start, end));
            assert(bytes(e.text@) =~= bytes(first + second + selected + last));
            offset::lemma_bytes_injective(e.text@, first + second + selected + last);
            let tail = second + selected + last;
            assert(e.text@ =~= first + tail);
            offset::lemma_bytes_concat(first, tail);
            offset::lemma_bytes_concat(before, first);
            offset::lemma_bytes_concat(before + first, tail);
            offset::lemma_bytes_concat(before + first + tail, after);
            assert(bytes(after) =~= b.skip(end));
            assert(bytes(out) =~= bytes(before + first + tail + after));
            offset::lemma_bytes_injective(out, before + first + tail + after);
            assert(out =~= (before + first) + (tail + after));
            offset::lemma_prefix_boundary(before + first, tail + after);
            offset::lemma_boundary_in_range(out, e.cursor as int);
        },
        Plan::Insert(first, second) => {
            inserting_keeps_the_text(text, before, rest, first, second, e, out);
            offset::lemma_boundary_in_range(out, e.cursor as int);
        },
        Plan::LineStart(snippet) => {
            let row = newlines(b.take(start)) as int;
            offset::lemma_newlines_monotone(b, start, b.len() as int);
            assert(b.take(b.len() as int) =~= b);
            offset::lemma_line_start_boundary(text, row);
            let at = start_of_line(text, start);
            offset::lemma_boundary_in_range(text, at);
            offset::lemma_parts_at(text, at);
            let (head, tail) = offset::parts_at(text, at);
            let none = Seq::<char>::empty();
            assert(snippet + none =~= snippet);
            inserting_keeps_the_text(text, head, tail, snippet, none, e, out);
            offset::lemma_boundary_in_range(out, e.cursor as int);
        },
    }
}

/// The hint of a button says that it goes around the selection exactly where the
/// change takes the place of the selection.
pub proof fn hints_tell_what_goes_around_the_selection(
    kind: Markup,
    text: Seq<char>,
    start: int,
    end: int,
    e: Edit,
)
    requires
        start < end,
        carries_out(plan(kind), text, (start, end), e),
    ensures
        begins(kind.hint_text(), "包住选中"@) <==> e.range.start == start && e.range.end == end,
{
    reveal_strlit("包住选中");
    reveal_strlit("包住选中：*粗体*");
    reveal_strlit("包住选中：_斜体_");
    reveal_strlit("包住选中：上标");
    reveal_strlit("包住选中：下标");
    reveal_strlit("包住选中：删除线");
    reveal_strlit("包住选中：高亮");
    reveal_strlit("插入代码块 <>");
    reveal_strlit("包住选中：居左");
    reveal_strlit("包住选中：居中");
    reveal_strlit("包住选中：居右");
    reveal_strlit("插入 #set par(justify: true)（两端对齐）");
    reveal_strlit("插入首行缩进 2em");
    reveal_strlit("插入 #set text(font: \"Microsoft YaHei\")");
    reveal_strlit("插入无序列表项 -");
    reveal_strlit("插入有序列表项 +");
    reveal_strlit("包住选中：引用块");
    reveal_strlit("插入一级标题 = （到行首）");
    reveal_strlit("插入标题编号 #set heading(numbering: \"1.1\")");
    reveal_strlit("插入文档题头模板");
    reveal_strlit("包住选中：$ 公式 $");
    reveal_strlit("插入图片（光标落在引号里）");
    reveal_strlit("插入带题注的图");
    reveal_strlit("插入两列两行的表格骨架");
    reveal_strlit("插入分页");
    reveal_strlit("插入目录 #outline()");
    reveal_strlit("包住选中：链接（光标落在引号里）");
    reveal_strlit("包住选中：脚注");
    reveal_strlit("包住选中：换这个颜色");
    let h = kind.hint_text();
    let around = "包住选中"@;
    assert(h.len() >= 4);
    if h[0] == '包' {
        assert(h.subrange(0, 4) =~= around);
    } else {
        assert(h.subrange(0, 4)[0] != around[0]);
    }
}

/// What is said after a button of the toolbar did its work.
pub fn inserted_message(kind: Markup) -> (r: String)
    ensures
        r@ == "已插入"@ + kind.label_text(),
{
    text::both("已插入", kind.label())
}

/// A mark for a line goes where the line begins, and the text stays: before it comes a
/// newline or nothing, and between it and the selection there is no newline.
pub proof fn line_marks_go_to_the_beginning_of_the_line(
    text: Seq<char>,
    start: int,
    end: int,
    snippet: Seq<char>,
    e: Edit,
)
    requires
        carries_out(Plan::LineStart(snippet), text, (start, end), e),
        0 <= start <= bytes(text).len(),
    ensures
        e.range.start == e.range.end,
        e.range.start <= start,
        e.range.start == 0 || bytes(text)[e.range.start - 1] == 10u8,
        forall|i: int| e.range.start <= i < start ==> #[trigger] bytes(text)[i] != 10u8,
        e.text@ == snippet,
{
    offset::rows_begin_after_newlines(bytes(text), start);
}

/// A link keeps the text: what was selected becomes what the link shows, and the caret
/// stands where the address goes.
pub proof fn links_keep_the_text(
    text: Seq<char>,
    before: Seq<char>,
    selected: Seq<char>,
    after: Seq<char>,
    e: Edit,
    out: Seq<char>,
)
    requires
        text == before + selected + after,
        carries_out(
            plan(Markup::Link),
            text,
            (bytes(before).len() as int, bytes(before + selected).len() as int),
            e,
        ),
        bytes(out) == bytes(text).take(e.range.start as int) + bytes(e.text@) + bytes(text).skip(
            e.range.end as int,
        ),
    ensures
        out == before + ("#link(\""@ + "\")["@ + selected + "]"@) + after,
        e.cursor == bytes(before + "#link(\""@).len(),
{
    let first = "#link(\""@;
    let second = "\")["@;
    let last = "]"@;
    offset::lemma_bytes_concat(before, selected);
    offset::lemma_bytes_concat(before + selected, after);
    offset::lemma_bytes_concat(first + second, selected);
    offset::lemma_bytes_concat(first + second + selected, last);
    let middle = first + second + selected + last;
    let (a, s, c) = (bytes(before), bytes(selected), bytes(after));
    assert(bytes(text) =~= a + s + c);
    assert(bytes(text).take(a.len() as int) =~= a);
    assert(bytes(text).subrange(a.len() as int, (a + s).len() as int) =~= s);
    assert(bytes(text).skip((a + s).len() as int) =~= c);
    offset::lemma_bytes_concat(before, middle);
    offset::lemma_bytes_concat(before + middle, after);
    assert(bytes(out) =~= bytes(before + middle + after));
    offset::lemma_bytes_injective(out, before + middle + after);
    offset::lemma_bytes_concat(before, first);
}

/// Each button puts in its own marks, of Typst.
pub proof fn buttons_put_in_their_own_marks(name: &'static str)
    ensures
        plan(Markup::Bold) == Plan::Wrap("*"@, "*"@),
        plan(Markup::Italic) == Plan::Wrap("_"@, "_"@),
        plan(Markup::Super) == Plan::Wrap("#super["@, "]"@),
        plan(Markup::Sub) == Plan::Wrap("#sub["@, "]"@),
        plan(Markup::Strike) == Plan::Wrap("#strike["@, "]"@),
        plan(Markup::Highlight) == Plan::Wrap("#highlight["@, "]"@),
        plan(Markup::CodeBlock) == Plan::Insert(CODE_BLOCK@, ""@),
        plan(Markup::AlignLeft) == Plan::Wrap("#align(left)["@, "]"@),
        plan(Markup::AlignCenter) == Plan::Wrap("#align(center)["@, "]"@),
        plan(Markup::AlignRight) == Plan::Wrap("#align(right)["@, "]"@),
        plan(Markup::Justify) == Plan::Insert("#set par(justify: true)"@, "\n"@),
        plan(Markup::Indent) == Plan::Insert("#set par(first-line-indent: (amount: 2em, all: true))"@, "\n"@),
        plan(Markup::FontFamily) == Plan::Insert("#set text(font: \"Microsoft YaHei\")"@, "\n"@),
        plan(Markup::BulletList) == Plan::LineStart("- "@),
        plan(Markup::NumberList) == Plan::LineStart("+ "@),
        plan(Markup::Quote) == Plan::Wrap("#quote["@, "]"@),
        plan(Markup::HeadingLevel1) == Plan::LineStart("= "@),
        plan(Markup::HeadingNumbering) == Plan::Insert("#set heading(numbering: \"1.1\")"@, "\n"@),
        plan(Markup::TitleTemplate) == Plan::Insert(TITLE_TEMPLATE@, ""@),
        plan(Markup::Math) == Plan::Wrap("$"@, "$"@),
        plan(Markup::Image) == Plan::Insert("#image(\""@, "\")"@),
        plan(Markup::Figure) == Plan::Insert(FIGURE@, ""@),
        plan(Markup::Table) == Plan::Insert(TABLE@, ""@),
        plan(Markup::Pagebreak) == Plan::Insert("#pagebreak()"@, ""@),
        plan(Markup::Outline) == Plan::Insert("#outline()"@, ""@),
        plan(Markup::Link) == Plan::Attach("#link(\""@, "\")["@, "]"@),
        plan(Markup::Footnote) == Plan::Wrap("#footnote["@, "]"@),
        plan(Markup::TextColor(name)) == Plan::Wrap("#text(fill: "@ + name@ + ")["@, "]"@),
{
}

} // verus!
