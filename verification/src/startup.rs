//! How the program begins: what it is asked to do, which document it opens, and where.

use vstd::prelude::*;
use vstd::string::*;

use crate::ai;
use crate::ai::{edit_conversation, is_local, messages_of};
use crate::chars;
use crate::chars::ascii_lower;
use crate::decimal;
use crate::decimal::read_u64;
use crate::image_view;
use crate::image_view::path_format;
use crate::path;
use crate::path::{extension_of, joined_path, name_of};
use crate::settings::WindowBox;
use crate::text;
use crate::text::{optional, views};

verus! {

/// What the program is asked to do.
pub enum Mode {
    /// Opens a window, on a file where one is named.
    Edit(Option<String>),
    /// Opens a window, records for some seconds, at least one, and ends.
    RecordTest(u64),
    /// Sends a request and ends; whether it is one for an insertion.
    AiTest(bool),
}

/// `m` is what the arguments ask for.
pub open spec fn is_mode(m: Mode, args: Seq<Seq<char>>) -> bool {
    if args.len() == 0 {
        m matches Mode::Edit(None)
    } else if args[0] == "--rec-selftest"@ {
        let secs = if args.len() > 1 && read_u64(args[1]) is Some {
            read_u64(args[1])->0
        } else {
            5
        };
        if secs == 0 {
            m matches Mode::Edit(None)
        } else {
            m matches Mode::RecordTest(n) && n == secs
        }
    } else if args[0] == "--ai-selftest"@ {
        m matches Mode::AiTest(insert) && insert == (args.len() > 1 && args[1] == "insert"@)
    } else {
        m matches Mode::Edit(Some(p)) && p@ == args[0]
    }
}

/// What the arguments ask for, the program's own name left out.
pub fn mode(args: &Vec<String>) -> (r: Mode)
    ensures
        is_mode(r, views(args@)),
{
    if args.len() == 0 {
        return Mode::Edit(None);
    }
    assert(views(args@)[0] == args@[0]@);
    let first = args[0].as_str();
    if text::same(first, "--rec-selftest") {
        if args.len() > 1 {
            assert(views(args@)[1] == args@[1]@);
            if let Some(secs) = decimal::parse_u64(args[1].as_str()) {
                return if secs == 0 {
                    Mode::Edit(None)
                } else {
                    Mode::RecordTest(secs)
                };
            }
        }
        return Mode::RecordTest(5);
    }
    if text::same(first, "--ai-selftest") {
        let insert = args.len() > 1 && text::same(args[1].as_str(), "insert");
        proof {
            if args@.len() > 1 {
                assert(views(args@)[1] == args@[1]@);
            }
        }
        return Mode::AiTest(insert);
    }
    Mode::Edit(Some(args[0].clone()))
}

/// The document that comes with the program.
pub const DEMO_DOC: &'static str = "#set page(width: 15cm, height: auto, margin: 1.8cm)\n\
#set text(size: 11pt)\n\
\n\
= 实时编译演示\n\
\n\
在*左边随便改点什么*，右边会在几毫秒内跟着变。\n\
\n\
没有子进程，没有 IPC —— 编译器直接读内存里未保存的文本。\n\
\n\
== 试试缩放\n\
\n\
按 *Ctrl+=* 放大、*Ctrl+-* 缩小、*Ctrl+0* 回到 100%。\n\
\n\
看状态栏：*排版次数不会变，光栅化次数才会变* —— 因为缩放只是重新出图，\n\
没有重新排版。DPI 完全由我们自己决定，所以放到 400% 也不会糊。\n\
\n\
== 为什么能这么快\n\
\n\
+ 覆盖式虚拟文件系统：编译器看到的就是你正在敲的内容\n\
+ `Source::replace` 的增量重解析：敲一个字只重解析几十字节\n\
+ comemo 记忆化排版：没变的部分不重算\n\
\n\
== 数学与表格\n\
\n\
$ integral_0^infinity e^(-x^2) dif x = sqrt(pi)/2 $\n\
\n\
#table(\n\
\x20 columns: 3,\n\
\x20 [*指标*], [*冷编译*], [*敲键*],\n\
\x20 [耗时], [191 ms], [1.9 ms],\n\
\x20 [重解析], [全文 34 KB], [276 B],\n\
\x20 [加速], [—], [102×],\n\
)\n\
\n\
== 打错字也不会白屏\n\
\n\
把下面这行的括号删掉试试 —— 右边会保留上一次编译成功的结果，\n\
只在下方列出错误，而不是变成一片空白。\n\
\n\
#let broken = (1 + 2)\n\
\n\
== 双击跳转\n\
\n\
*双击左边*的任意一行，右边会跳到它在哪一页；*双击右边*的任意一处，\n\
左边的光标会移到那句话上。两边都会留下一个会淡出的框。\n\
\n\
+ `Ctrl+Alt+J` 也能做前向跳转（不用鼠标）\n\
+ 预览里的链接用 *Ctrl+单击* 打开，比如 #link(\"https://typst.app\")[Typst 官网]\n\
+ 跳转靠的是排版结果里的字形出处，所以跳一次只需重新出图：\n\
\x20 状态栏的「排版次数」不会变\n\
";

/// What the document that comes with the program is called.
pub const DEMO_NAME: &'static str = "typst-live-demo.typ";

/// The document that is opened: its text, where it is, and whether it is the user's.
pub struct Opened {
    pub text: String,
    pub path: String,
    pub explicit_file: bool,
}

/// The files that may be opened, in the order in which they are tried.
pub open spec fn candidates(arg: Option<Seq<char>>, remembered: Option<Seq<char>>) -> Seq<Seq<char>> {
    (match arg {
        Some(p) => seq![p],
        None => Seq::empty(),
    }) + (match remembered {
        Some(p) => seq![p],
        None => Seq::empty(),
    })
}

/// Finding a document to open: the file that is named, or else the one that was open
/// last, or else the one that comes with the program.
pub struct Loading {
    pub files: Vec<String>,
    pub at: usize,
}

impl Loading {
    /// Nothing was tried yet.
    pub fn new(arg: Option<String>, remembered: Option<String>) -> (r: Self)
        ensures
            views(r.files@) == candidates(optional(arg), optional(remembered)),
            r.at == 0,
    {
        let mut files: Vec<String> = Vec::new();
        if let Some(p) = arg {
            files.push(p);
        }
        if let Some(p) = remembered {
            files.push(p);
        }
        assert(views(files@) =~= candidates(optional(arg), optional(remembered)));
        Loading { files, at: 0 }
    }

    /// The file to try next.
    pub fn next(&self) -> (r: Option<String>)
        ensures
            optional(r) == if self.at < self.files@.len() {
                Some(self.files@[self.at as int]@)
            } else {
                None
            },
    {
        if self.at < self.files.len() {
            Some(self.files[self.at].clone())
        } else {
            None
        }
    }

    /// Takes over what the file holds, where it could be read.
    pub fn feed(&mut self, content: Option<String>) -> (r: Option<Opened>)
        requires
            old(self).at < old(self).files@.len(),
        ensures
            final(self).files@ == old(self).files@,
            content is None ==> r is None && final(self).at == old(self).at + 1,
            content is Some ==> final(self).at == old(self).at && (r matches Some(o) && {
                &&& o.text@ == content->0@
                &&& o.path@ == old(self).files@[old(self).at as int]@
                &&& o.explicit_file
            }),
    {
        match content {
            Some(text) => Some(
                Opened { text, path: self.files[self.at].clone(), explicit_file: true },
            ),
            None => {
                let n: usize = self.files.len();
                assert(self.at < n);
                self.at = self.at + 1;
                None
            },
        }
    }

    /// What is opened where no file could be read.
    pub fn demo(temp: &str) -> (r: Opened)
        ensures
            r.text@ == DEMO_DOC@,
            r.path@ == joined_path(temp@, DEMO_NAME@),
            !r.explicit_file,
    {
        Opened {
            text: DEMO_DOC.to_owned(),
            path: path::join(temp, DEMO_NAME),
            explicit_file: false,
        }
    }
}

/// Where the window is put and how large it is: as it was last, or else in its usual
/// place.
pub fn window_box(remembered: Option<WindowBox>) -> (r: WindowBox)
    ensures
        r == match remembered {
            Some(b) => b,
            None => (80i32, 60i32, 1320i32, 880i32),
        },
{
    match remembered {
        Some(b) => b,
        None => (80, 60, 1320, 880),
    }
}

/// The directory that is worked in at first: that of the user's file, or else the one
/// that the program was started in.
pub fn first_root(explicit_file: bool, file_dir: &str, current: Option<&str>) -> (r: String)
    ensures
        r@ == if explicit_file {
            file_dir@
        } else {
            match current {
                Some(dir) => dir@,
                None => "."@,
            }
        },
{
    if explicit_file {
        return file_dir.to_owned();
    }
    match current {
        Some(dir) => dir.to_owned(),
        None => ".".to_owned(),
    }
}

/// The shell that a terminal runs.
pub fn default_shell(windows: bool, shell: Option<&str>) -> (r: String)
    ensures
        r@ == if windows {
            "powershell.exe"@
        } else {
            match shell {
                Some(s) => s@,
                None => "/bin/sh"@,
            }
        },
{
    if windows {
        return "powershell.exe".to_owned();
    }
    match shell {
        Some(s) => s.to_owned(),
        None => "/bin/sh".to_owned(),
    }
}

/// What is said of the key before a request is sent.
pub fn key_line(has_key: bool, base_url: &str) -> (r: &'static str)
    ensures
        r@ == if has_key {
            "已配（来自环境变量 AI_API_KEY 或 settings.conf）"@
        } else if is_local(base_url@) {
            "无（本地端点，不需要）"@
        } else {
            "**没配** → 菜单「AI → AI 设置…」填一个"@
        },
{
    if has_key {
        "已配（来自环境变量 AI_API_KEY 或 settings.conf）"
    } else if ai::is_local_endpoint(base_url) {
        "无（本地端点，不需要）"
    } else {
        "**没配** → 菜单「AI → AI 设置…」填一个"
    }
}

/// The text that a request for an insertion is tried with.
pub const TEST_CONTEXT: &'static str = "= 第一章 概述\n\n本节介绍了系统的总体架构与部署方式，\n说明各模块之间的调用关系与数据流。\n";

/// What is asked for in that text.
pub const TEST_WISH: &'static str = "在光标处补一句关于「部署环境要求」的说明";

/// The messages that a request is tried with.
pub fn test_messages(insert: bool, hint: &str) -> (r: Vec<(String, String)>)
    ensures
        messages_of(r@) == if insert {
            edit_conversation(
                TEST_CONTEXT@,
                Seq::empty(),
                hint@ + "\n\n"@ + TEST_WISH@,
            )
        } else {
            seq![("system"@, "只回一个字。"@), ("user"@, "ping"@)]
        },
{
    if insert {
        let wish = text::three(hint, "\n\n", TEST_WISH);
        let none: Vec<(bool, String)> = Vec::new();
        assert(none@ =~= Seq::<(bool, String)>::empty());
        return ai::edit_messages(TEST_CONTEXT, none.as_slice(), wish.as_str());
    }
    let mut out: Vec<(String, String)> = Vec::new();
    out.push(("system".to_owned(), "只回一个字。".to_owned()));
    out.push(("user".to_owned(), "ping".to_owned()));
    assert(messages_of(out@) =~= seq![("system"@, "只回一个字。"@), ("user"@, "ping"@)]);
    out
}

/// Where a file that was clicked goes.
pub enum Route {
    /// A picture; what is said.
    Image(String),
    /// A Markdown file; what is said.
    Markdown(String),
    /// A text for the editor; what it is called.
    Editor(String),
    /// It cannot be read; what is said.
    Failed(String),
}

/// What a file is called, or nothing.
pub open spec fn name_or_nothing(p: Seq<char>) -> Seq<char> {
    match name_of(p) {
        Some(name) => name,
        None => Seq::empty(),
    }
}

/// The file is a Markdown file, by its extension in whichever case.
pub open spec fn is_markdown(p: Seq<char>) -> bool {
    extension_of(p) matches Some(e) && e.map_values(|c: char| ascii_lower(c)) == "md"@
}

fn shown_name(p: &str) -> (r: String)
    ensures
        r@ == name_or_nothing(p@),
{
    match path::file_name(p) {
        Some(name) => name,
        None => {
            let none = String::new();
            assert(none@ =~= Seq::<char>::empty());
            none
        },
    }
}

/// Whether a picture is shown, so that the file is not read as text.
pub fn shows_image(p: &str) -> (r: bool)
    ensures
        r == path_format(p@) is Some,
{
    image_view::is_image_path(p)
}

/// Where a file that was clicked goes. `error` is why it could not be read; pictures are
/// not read here.
pub fn route(p: &str, error: Option<&str>) -> (r: Route)
    ensures
        if path_format(p@) is Some {
            r matches Route::Image(m) && m@ == "图片 "@ + name_or_nothing(p@)
        } else {
            match error {
                Some(why) => r matches Route::Failed(m) && m@ == "打不开 "@ + p@ + "："@ + why@,
                None => if is_markdown(p@) {
                    r matches Route::Markdown(m) && m@ == "Markdown "@ + name_or_nothing(p@)
                } else {
                    r matches Route::Editor(label) && label@ == name_or_nothing(p@)
                },
            }
        },
{
    let name = shown_name(p);
    if image_view::is_image_path(p) {
        return Route::Image(text::both("图片 ", name.as_str()));
    }
    if let Some(why) = error {
        let mut m = text::three("打不开 ", p, "：");
        m.append(why);
        return Route::Failed(m);
    }
    let markdown = match path::extension(p) {
        Some(e) => {
            let lower = chars::lower_ascii(e.as_str());
            text::same(lower.as_str(), "md")
        },
        None => false,
    };
    if markdown {
        Route::Markdown(text::both("Markdown ", name.as_str()))
    } else {
        Route::Editor(name)
    }
}

/// A file that is named is tried before the one that was open last.
pub proof fn named_files_are_tried_first(a: Seq<char>, b: Seq<char>)
    ensures
        candidates(Some(a), Some(b)) == seq![a, b],
        candidates(Some(a), None) == seq![a],
        candidates(None, Some(b)) == seq![b],
        candidates(None, None) == Seq::<Seq<char>>::empty(),
{
    assert(candidates(Some(a), Some(b)) =~= seq![a, b]);
    assert(candidates(Some(a), None) =~= seq![a]);
    assert(candidates(None, Some(b)) =~= seq![b]);
    assert(candidates(None, None) =~= Seq::<Seq<char>>::empty());
}

/// An argument that asks for no trial is a file to be opened, whatever follows it.
pub proof fn other_arguments_are_files(m: Mode, args: Seq<Seq<char>>)
    requires
        args.len() > 0,
        args[0] != "--rec-selftest"@,
        args[0] != "--ai-selftest"@,
        is_mode(m, args),
    ensures
        m matches Mode::Edit(Some(p)) && p@ == args[0],
{
}

} // verus!
