//! Recording the window: what is captured, what ffmpeg is asked, and how the parts of
//! a recording become one film.

use vstd::prelude::*;
use vstd::string::*;

use crate::decimal;
use crate::decimal::{decimal, signed};
use crate::path;
use crate::path::joined_path;
use crate::text;
use crate::text::{
    after_last, closes, joined, optional, pieces, said, search, text_lines, trimmed, views,
};

verus! {

/// Where films go.
pub const OUT_DIR: &'static str = "D:\\录屏";

/// The directory that is used where films cannot go there.
pub const FALLBACK_OUT_DIR: &'static str = "typst-live";

/// Frames in a second.
pub const FPS: u32 = 30;

/// The smallest side that is recorded.
pub const MIN_SIDE: i32 = 64;

/// How wide the picture in the picture is.
pub const PIP_WIDTH: u32 = 320;

/// How far it stays from the edges.
pub const PIP_MARGIN: u32 = 16;

/// How the name of a directory of parts begins.
pub const TEMP_PREFIX: &'static str = ".tmp-";

/// How many milliseconds ffmpeg has to end.
pub const FINISH_TIMEOUT_MS: u64 = 8000;

/// How large a film is at least, in bytes, not to count as empty.
pub const EMPTY_SIZE: u64 = 4096;

/// A rectangle of the screen, in pixels.
#[derive(Clone, Copy, Debug, PartialEq, Eq, Structural)]
pub struct Rect {
    pub x: i32,
    pub y: i32,
    pub w: i32,
    pub h: i32,
}

impl Rect {
    /// The first column past the rectangle.
    pub open spec fn past_x(self) -> int {
        self.x + self.w
    }

    /// The first row past the rectangle.
    pub open spec fn past_y(self) -> int {
        self.y + self.h
    }

    /// Its far edges are coordinates.
    pub open spec fn valid(self) -> bool {
        &&& i32::MIN <= self.past_x() <= i32::MAX
        &&& i32::MIN <= self.past_y() <= i32::MAX
    }

    /// The first column past the rectangle.
    pub fn right(&self) -> (r: i32)
        requires
            self.valid(),
        ensures
            r == self.past_x(),
    {
        self.x + self.w
    }

    /// The first row past the rectangle.
    pub fn bottom(&self) -> (r: i32)
        requires
            self.valid(),
        ensures
            r == self.past_y(),
    {
        self.y + self.h
    }
}

pub open spec fn larger(a: int, b: int) -> int {
    if a < b {
        b
    } else {
        a
    }
}

pub open spec fn smaller(a: int, b: int) -> int {
    if a < b {
        a
    } else {
        b
    }
}

/// The largest even number that is not above `n`.
pub open spec fn even(n: int) -> int {
    n - n % 2
}

/// How wide the common part of two rectangles is; negative where they are apart.
pub open spec fn common_width(a: Rect, b: Rect) -> int {
    smaller(a.past_x(), b.past_x()) - larger(a.x as int, b.x as int)
}

/// How high the common part of two rectangles is; negative where they are apart.
pub open spec fn common_height(a: Rect, b: Rect) -> int {
    smaller(a.past_y(), b.past_y()) - larger(a.y as int, b.y as int)
}

/// The part of the window that is on the monitor, its sides made even; none where a
/// side is below the least.
pub open spec fn cropped(win: Rect, monitor: Rect, min_side: int) -> Option<(int, int, int, int)> {
    let w = even(common_width(win, monitor));
    let h = even(common_height(win, monitor));
    if w < min_side || h < min_side {
        None
    } else {
        Some((larger(win.x as int, monitor.x as int), larger(win.y as int, monitor.y as int), w, h))
    }
}

/// A rectangle as four numbers.
pub open spec fn numbers(r: Option<Rect>) -> Option<(int, int, int, int)> {
    match r {
        Some(r) => Some((r.x as int, r.y as int, r.w as int, r.h as int)),
        None => None,
    }
}

fn even_part(n: i32) -> (r: i32)
    ensures
        r == even(n as int),
{
    let r: i32 = n & !1;
    assert(n & !1i32 == n - n % 2) by (bit_vector);
    r
}

/// The part of the window that is on the monitor, its sides made even.
pub fn crop_region(win: Rect, monitor: Rect, min_side: i32) -> (r: Option<Rect>)
    requires
        win.valid(),
        monitor.valid(),
        i32::MIN <= common_width(win, monitor) <= i32::MAX,
        i32::MIN <= common_height(win, monitor) <= i32::MAX,
    ensures
        numbers(r) == cropped(win, monitor, min_side as int),
{
    let x: i32 = if win.x < monitor.x {
        monitor.x
    } else {
        win.x
    };
    let y: i32 = if win.y < monitor.y {
        monitor.y
    } else {
        win.y
    };
    let a: i32 = win.right();
    let b: i32 = monitor.right();
    let right: i32 = if a < b {
        a
    } else {
        b
    };
    let c: i32 = win.bottom();
    let d: i32 = monitor.bottom();
    let bottom: i32 = if c < d {
        c
    } else {
        d
    };
    let w: i32 = even_part(right - x);
    let h: i32 = even_part(bottom - y);
    if w < min_side || h < min_side {
        return None;
    }
    Some(Rect { x, y, w, h })
}

/// What is captured lies within the window and within the monitor, has even sides and
/// is no smaller than asked.
pub proof fn captured_part_is_on_screen(win: Rect, monitor: Rect, min_side: int)
    requires
        cropped(win, monitor, min_side) is Some,
    ensures
        ({
            let (x, y, w, h) = cropped(win, monitor, min_side)->0;
            &&& win.x <= x && x + w <= win.past_x()
            &&& win.y <= y && y + h <= win.past_y()
            &&& monitor.x <= x && x + w <= monitor.past_x()
            &&& monitor.y <= y && y + h <= monitor.past_y()
            &&& w % 2 == 0 && h % 2 == 0
            &&& w >= min_side && h >= min_side
        }),
{
}

/// A window that lies within the monitor, with even sides that are large enough, is
/// captured as it is.
pub proof fn windows_inside_are_captured_whole(win: Rect, monitor: Rect, min_side: int)
    requires
        monitor.x <= win.x,
        monitor.y <= win.y,
        win.past_x() <= monitor.past_x(),
        win.past_y() <= monitor.past_y(),
        win.w % 2 == 0,
        win.h % 2 == 0,
        win.w >= min_side,
        win.h >= min_side,
    ensures
        cropped(win, monitor, min_side) == numbers(Some(win)),
{
}

/// The devices that can be recorded from.
#[derive(Debug, Clone, PartialEq, Eq)]
pub struct Devices {
    pub video: Vec<String>,
    pub audio: Vec<String>,
}

impl Default for Devices {
    fn default() -> (r: Self)
        ensures
            r.video@ == Seq::<String>::empty(),
            r.audio@ == Seq::<String>::empty(),
    {
        Devices { video: Vec::new(), audio: Vec::new() }
    }
}

/// What stands between the first two quotes after the last `] ` of a line.
pub open spec fn device_name(line: Seq<char>) -> Option<Seq<char>> {
    let rest = after_last(line, "] "@);
    let start = search(rest, "\""@, 0);
    let end = search(rest, "\""@, start + 1);
    if start < 0 || end < 0 {
        None
    } else {
        Some(rest.subrange(start + 1, end))
    }
}

/// The devices with one more name, where the line gives one.
pub open spec fn with_name(names: Seq<Seq<char>>, line: Seq<char>) -> Seq<Seq<char>> {
    match device_name(line) {
        Some(name) => names.push(name),
        None => names,
    }
}

/// The names of cameras and of microphones that lines give: a line names a camera
/// where it ends with `(video)`, a microphone where it ends with `(audio)`.
pub open spec fn devices_in(lines: Seq<Seq<char>>) -> (Seq<Seq<char>>, Seq<Seq<char>>)
    decreases lines.len(),
{
    if lines.len() == 0 {
        (Seq::empty(), Seq::empty())
    } else {
        let (video, audio) = devices_in(lines.drop_last());
        let line = lines.last();
        if closes(trimmed(line), "(video)"@) {
            (with_name(video, line), audio)
        } else if closes(trimmed(line), "(audio)"@) {
            (video, with_name(audio, line))
        } else {
            (video, audio)
        }
    }
}

fn name_in(line: &str) -> (r: Option<String>)
    ensures
        optional(r) == device_name(line@),
{
    let v = text::chars_of(line);
    let mark = text::chars_of("] ");
    let quote = text::chars_of("\"");
    proof {
        reveal_strlit("\"");
    }
    let from: usize = text::start_after_last(&v, &mark);
    let n: usize = v.len();
    let rest_text = text::text_of(&v, from, n);
    assert(v@.subrange(from as int, n as int) =~= v@.skip(from as int));
    let rest = text::chars_of(rest_text.as_str());
    let start = match text::find(&rest, &quote, 0) {
        Some(i) => i,
        None => {
            return None;
        },
    };
    match text::find(&rest, &quote, start + 1) {
        Some(end) => Some(text::text_of(&rest, start + 1, end)),
        None => None,
    }
}

fn note_name(names: &mut Vec<String>, line: &str)
    ensures
        views(final(names)@) == with_name(views(old(names)@), line@),
{
    if let Some(name) = name_in(line) {
        let ghost before = names@;
        names.push(name);
        assert(views(names@) =~= views(before).push(name@));
    }
}

/// The devices that ffmpeg lists.
pub fn parse_dshow_devices(stderr: &str) -> (r: Devices)
    ensures
        (views(r.video@), views(r.audio@)) == devices_in(pieces(stderr@, '\n')),
{
    let lines = text::split(stderr, '\n');
    let ghost all = views(lines@);
    let mut out = Devices { video: Vec::new(), audio: Vec::new() };
    assert(views(out.video@) =~= Seq::<Seq<char>>::empty());
    assert(views(out.audio@) =~= Seq::<Seq<char>>::empty());
    let mut i: usize = 0;
    while i < lines.len()
        invariant
            i <= lines@.len(),
            all == views(lines@),
            (views(out.video@), views(out.audio@)) == devices_in(all.take(i as int)),
        decreases lines@.len() - i,
    {
        let line = lines[i].as_str();
        assert(all.take(i + 1).drop_last() =~= all.take(i as int));
        assert(all.take(i + 1).last() == line@);
        let bare = text::trim(line);
        if text::ends_with_text(bare.as_str(), "(video)") {
            note_name(&mut out.video, line);
        } else if text::ends_with_text(bare.as_str(), "(audio)") {
            note_name(&mut out.audio, line);
        }
        i += 1;
    }
    assert(all.take(i as int) =~= all);
    out
}

/// The arguments with which ffmpeg lists the devices.
pub fn list_args() -> (r: Vec<String>)
    ensures
        views(r@) == seq![
            "-hide_banner"@,
            "-list_devices"@,
            "true"@,
            "-f"@,
            "dshow"@,
            "-i"@,
            "dummy"@,
        ],
{
    let out = text::list(&["-hide_banner", "-list_devices", "true", "-f", "dshow", "-i", "dummy"]);
    assert(views(out@) =~= seq![
        "-hide_banner"@,
        "-list_devices"@,
        "true"@,
        "-f"@,
        "dshow"@,
        "-i"@,
        "dummy"@,
    ]);
    out
}

/// The arguments with which ffmpeg shows whether it can encode in hardware.
pub open spec fn nvenc_arguments() -> Seq<Seq<char>> {
    seq![
            "-hide_banner"@,
            "-loglevel"@,
            "error"@,
            "-f"@,
            "lavfi"@,
            "-i"@,
            "color=black:s=64x64:d=0.1"@,
            "-frames:v"@,
            "1"@,
            "-c:v"@,
            "h264_nvenc"@,
            "-f"@,
            "null"@,
            "-"@,
        ]
}

/// The arguments with which ffmpeg shows whether it can encode in hardware.
pub fn nvenc_args() -> (r: Vec<String>)
    ensures
        views(r@) == nvenc_arguments(),
{
    let out = text::list(
        &[
            "-hide_banner",
            "-loglevel",
            "error",
            "-f",
            "lavfi",
            "-i",
            "color=black:s=64x64:d=0.1",
            "-frames:v",
            "1",
            "-c:v",
            "h264_nvenc",
            "-f",
            "null",
            "-",
        ],
    );
    assert(views(out@) =~= nvenc_arguments());
    out
}

/// What ffmpeg is asked in order to record a part of the screen, with sound where a
/// microphone is given.
pub open spec fn screen_arguments(
    region: Rect,
    mic: Option<Seq<char>>,
    fps: nat,
    out: Seq<char>,
) -> Seq<Seq<char>> {
    seq![
        "-y"@,
        "-hide_banner"@,
        "-loglevel"@,
        "warning"@,
        "-f"@,
        "gdigrab"@,
        "-framerate"@,
        decimal(fps),
        "-offset_x"@,
        signed(region.x as int),
        "-offset_y"@,
        signed(region.y as int),
        "-video_size"@,
        signed(region.w as int) + "x"@ + signed(region.h as int),
        "-i"@,
        "desktop"@,
    ] + (match mic {
        Some(m) => seq!["-f"@, "dshow"@, "-i"@, "audio="@ + m],
        None => Seq::empty(),
    }) + seq!["-map"@, "0:v"@] + (if mic is Some {
        seq!["-map"@, "1:a"@]
    } else {
        Seq::empty()
    }) + seq![
        "-c:v"@,
        "libx264"@,
        "-preset"@,
        "veryfast"@,
        "-crf"@,
        "20"@,
        "-pix_fmt"@,
        "yuv420p"@,
    ] + (if mic is Some {
        seq!["-c:a"@, "aac"@, "-b:a"@, "128k"@, "-af"@, "aresample=async=1:first_pts=0"@]
    } else {
        Seq::empty()
    }) + seq!["-movflags"@, "+faststart"@, out]
}

/// What ffmpeg is asked in order to record a part of the screen.
pub fn screen_args(region: Rect, mic: Option<&str>, fps: u32, out: &str) -> (r: Vec<String>)
    ensures
        views(r@) == screen_arguments(region, said(mic), fps as nat, out@),
{
    let rate = decimal::show(fps as u64);
    let x = decimal::show_signed(region.x);
    let y = decimal::show_signed(region.y);
    let w = decimal::show_signed(region.w);
    let h = decimal::show_signed(region.h);
    let size = text::three(w.as_str(), "x", h.as_str());
    let mut a = text::list(
        &[
            "-y",
            "-hide_banner",
            "-loglevel",
            "warning",
            "-f",
            "gdigrab",
            "-framerate",
            rate.as_str(),
            "-offset_x",
            x.as_str(),
            "-offset_y",
            y.as_str(),
            "-video_size",
            size.as_str(),
            "-i",
            "desktop",
        ],
    );
    if let Some(m) = mic {
        let device = text::both("audio=", m);
        text::extend(&mut a, &["-f", "dshow", "-i", device.as_str()]);
    }
    text::extend(&mut a, &["-map", "0:v"]);
    if mic.is_some() {
        text::extend(&mut a, &["-map", "1:a"]);
    }
    text::extend(
        &mut a,
        &["-c:v", "libx264", "-preset", "veryfast", "-crf", "20", "-pix_fmt", "yuv420p"],
    );
    if mic.is_some() {
        text::extend(
            &mut a,
            &["-c:a", "aac", "-b:a", "128k", "-af", "aresample=async=1:first_pts=0"],
        );
    }
    text::extend(&mut a, &["-movflags", "+faststart", out]);
    assert(views(a@) =~= screen_arguments(region, said(mic), fps as nat, out@));
    a
}

/// What ffmpeg is asked in order to record a camera.
pub open spec fn camera_arguments(device: Seq<char>, out: Seq<char>) -> Seq<Seq<char>> {
    seq![
        "-y"@,
        "-hide_banner"@,
        "-loglevel"@,
        "warning"@,
        "-f"@,
        "dshow"@,
        "-video_size"@,
        "640x480"@,
        "-framerate"@,
        decimal(FPS as nat),
        "-i"@,
        "video="@ + device,
        "-c:v"@,
        "libx264"@,
        "-preset"@,
        "veryfast"@,
        "-crf"@,
        "23"@,
        "-pix_fmt"@,
        "yuv420p"@,
        "-movflags"@,
        "+faststart"@,
        out,
    ]
}

/// What ffmpeg is asked in order to record a camera.
pub fn camera_args(device: &str, out: &str) -> (r: Vec<String>)
    ensures
        views(r@) == camera_arguments(device@, out@),
{
    let rate = decimal::show(FPS as u64);
    let source = text::both("video=", device);
    let a = text::list(
        &[
            "-y",
            "-hide_banner",
            "-loglevel",
            "warning",
            "-f",
            "dshow",
            "-video_size",
            "640x480",
            "-framerate",
            rate.as_str(),
            "-i",
            source.as_str(),
            "-c:v",
            "libx264",
            "-preset",
            "veryfast",
            "-crf",
            "23",
            "-pix_fmt",
            "yuv420p",
            "-movflags",
            "+faststart",
            out,
        ],
    );
    assert(views(a@) =~= camera_arguments(device@, out@));
    a
}

/// A text with each single quote written as `'\''`.
pub open spec fn quoted(s: Seq<char>) -> Seq<char>
    decreases s.len(),
{
    if s.len() == 0 {
        Seq::empty()
    } else if s.last() == '\'' {
        quoted(s.drop_last()) + "'\\''"@
    } else {
        quoted(s.drop_last()).push(s.last())
    }
}

fn quote(s: &str) -> (r: String)
    ensures
        r@ == quoted(s@),
{
    let v = text::chars_of(s);
    let mut out = String::new();
    let mut i: usize = 0;
    while i < v.len()
        invariant
            i <= v@.len(),
            out@ == quoted(v@.take(i as int)),
        decreases v@.len() - i,
    {
        assert(v@.take(i + 1).drop_last() =~= v@.take(i as int));
        if v[i] == '\'' {
            out.append("'\\''");
        } else {
            out.push(v[i]);
        }
        i += 1;
    }
    assert(v@.take(i as int) =~= v@);
    out
}

/// The list of files that ffmpeg joins, a line for each.
pub open spec fn join_list(files: Seq<Seq<char>>) -> Seq<char>
    decreases files.len(),
{
    if files.len() == 0 {
        Seq::empty()
    } else {
        join_list(files.drop_last()) + ("file '"@ + quoted(files.last()) + "'\n"@)
    }
}

/// The list of files that ffmpeg joins.
pub fn concat_list_text(files: &[String]) -> (r: String)
    ensures
        r@ == join_list(views(files@)),
{
    let ghost all = views(files@);
    let mut out = String::new();
    let mut i: usize = 0;
    while i < files.len()
        invariant
            i <= files@.len(),
            all == views(files@),
            out@ == join_list(all.take(i as int)),
        decreases files@.len() - i,
    {
        assert(all.take(i + 1).drop_last() =~= all.take(i as int));
        let name = quote(files[i].as_str());
        let line = text::three("file '", name.as_str(), "'\n");
        out.append(line.as_str());
        i += 1;
    }
    assert(all.take(i as int) =~= all);
    out
}

/// What ffmpeg is asked in order to join files without encoding them again.
pub open spec fn concat_arguments(list: Seq<char>, out: Seq<char>) -> Seq<Seq<char>> {
    seq![
        "-y"@,
        "-hide_banner"@,
        "-loglevel"@,
        "warning"@,
        "-f"@,
        "concat"@,
        "-safe"@,
        "0"@,
        "-i"@,
        list,
        "-c"@,
        "copy"@,
        "-movflags"@,
        "+faststart"@,
        out,
    ]
}

/// What ffmpeg is asked in order to join files without encoding them again.
pub fn concat_args(list: &str, out: &str) -> (r: Vec<String>)
    ensures
        views(r@) == concat_arguments(list@, out@),
{
    let a = text::list(
        &[
            "-y",
            "-hide_banner",
            "-loglevel",
            "warning",
            "-f",
            "concat",
            "-safe",
            "0",
            "-i",
            list,
            "-c",
            "copy",
            "-movflags",
            "+faststart",
            out,
        ],
    );
    assert(views(a@) =~= concat_arguments(list@, out@));
    a
}

/// The filter that lays the camera over the lower right corner of the screen.
pub open spec fn overlay_filter() -> Seq<char> {
    "[1:v]scale="@ + decimal(PIP_WIDTH as nat)
        + ":-2,setsar=1[pip];[0:v][pip]overlay=W-w-"@ + decimal(PIP_MARGIN as nat) + ":H-h-"@
        + decimal(PIP_MARGIN as nat) + ":eof_action=pass,format=yuv420p[v]"@
}

/// What ffmpeg is asked in order to lay the camera over the screen.
pub open spec fn overlay_arguments(
    screen: Seq<char>,
    cam: Seq<char>,
    out: Seq<char>,
    nvenc: bool,
) -> Seq<Seq<char>> {
    seq![
        "-y"@,
        "-hide_banner"@,
        "-loglevel"@,
        "warning"@,
        "-i"@,
        screen,
        "-i"@,
        cam,
        "-filter_complex"@,
        overlay_filter(),
        "-map"@,
        "[v]"@,
        "-map"@,
        "0:a?"@,
    ] + (if nvenc {
        seq!["-c:v"@, "h264_nvenc"@, "-preset"@, "p4"@, "-cq"@, "23"@]
    } else {
        seq!["-c:v"@, "libx264"@, "-preset"@, "veryfast"@, "-crf"@, "20"@]
    }) + seq!["-c:a"@, "copy"@, "-movflags"@, "+faststart"@, out]
}

/// What ffmpeg is asked in order to lay the camera over the screen.
pub fn overlay_args(screen: &str, cam: &str, out: &str, nvenc: bool) -> (r: Vec<String>)
    ensures
        views(r@) == overlay_arguments(screen@, cam@, out@, nvenc),
{
    let width = decimal::show(PIP_WIDTH as u64);
    let margin = decimal::show(PIP_MARGIN as u64);
    let mut filter = "[1:v]scale=".to_owned();
    filter.append(width.as_str());
    filter.append(":-2,setsar=1[pip];[0:v][pip]overlay=W-w-");
    filter.append(margin.as_str());
    filter.append(":H-h-");
    filter.append(margin.as_str());
    filter.append(":eof_action=pass,format=yuv420p[v]");
    let mut a = text::list(
        &[
            "-y",
            "-hide_banner",
            "-loglevel",
            "warning",
            "-i",
            screen,
            "-i",
            cam,
            "-filter_complex",
            filter.as_str(),
            "-map",
            "[v]",
            "-map",
            "0:a?",
        ],
    );
    if nvenc {
        text::extend(&mut a, &["-c:v", "h264_nvenc", "-preset", "p4", "-cq", "23"]);
    } else {
        text::extend(&mut a, &["-c:v", "libx264", "-preset", "veryfast", "-crf", "20"]);
    }
    text::extend(&mut a, &["-c:a", "copy", "-movflags", "+faststart", out]);
    assert(views(a@) =~= overlay_arguments(screen@, cam@, out@, nvenc));
    a
}

/// A time as `01:23`, or as `1:02:03` from an hour on.
pub open spec fn clock(secs: nat) -> Seq<char> {
    let (h, m, s) = (secs / 3600, secs % 3600 / 60, secs % 60);
    if h > 0 {
        decimal(h) + ":"@ + decimal::padded(m, 2) + ":"@ + decimal::padded(s, 2)
    } else {
        decimal::padded(m, 2) + ":"@ + decimal::padded(s, 2)
    }
}

/// A time as `01:23`, or as `1:02:03` from an hour on.
pub fn elapsed_label(secs: u64) -> (r: String)
    ensures
        r@ == clock(secs as nat),
{
    let h: u64 = secs / 3600;
    let minutes = decimal::show_padded(secs % 3600 / 60, 2);
    let seconds = decimal::show_padded(secs % 60, 2);
    let rest = text::three(minutes.as_str(), ":", seconds.as_str());
    if h > 0 {
        let hours = decimal::show(h);
        let out = text::three(hours.as_str(), ":", rest.as_str());
        assert(out@ =~= clock(secs as nat));
        out
    } else {
        rest
    }
}

/// A point in time as `20260919-001234`.
pub open spec fn stamp(
    year: nat,
    month: nat,
    day: nat,
    hour: nat,
    minute: nat,
    second: nat,
) -> Seq<char> {
    decimal::padded(year, 4) + decimal::padded(month, 2) + decimal::padded(day, 2) + "-"@
        + decimal::padded(hour, 2) + decimal::padded(minute, 2) + decimal::padded(second, 2)
}

/// A point in time as `20260919-001234`.
pub fn stamp_text(year: u16, month: u16, day: u16, hour: u16, minute: u16, second: u16) -> (r:
    String)
    ensures
        r@ == stamp(
            year as nat,
            month as nat,
            day as nat,
            hour as nat,
            minute as nat,
            second as nat,
        ),
{
    let mut out = decimal::show_padded(year as u64, 4);
    let month_text = decimal::show_padded(month as u64, 2);
    let day_text = decimal::show_padded(day as u64, 2);
    let hour_text = decimal::show_padded(hour as u64, 2);
    let minute_text = decimal::show_padded(minute as u64, 2);
    let second_text = decimal::show_padded(second as u64, 2);
    out.append(month_text.as_str());
    out.append(day_text.as_str());
    out.append("-");
    out.append(hour_text.as_str());
    out.append(minute_text.as_str());
    out.append(second_text.as_str());
    out
}

/// What a recording is doing.
#[derive(Debug, Clone, Copy, PartialEq, Eq, Structural)]
pub enum State {
    Idle,
    Recording,
    Paused,
    /// It has ended and is being put together.
    Finalizing,
}

/// A recording. It is made of parts: a pause ends one, and going on begins the next.
pub struct Recorder {
    /// Where the parts are.
    pub dir: String,
    /// Where the film goes.
    pub out: String,
    pub region: Rect,
    pub mic: Option<String>,
    pub cam: Option<String>,
    pub state: State,
    /// How many parts are complete.
    pub sealed: u32,
    /// How long was recorded, in nanoseconds.
    pub elapsed: u64,
    /// What is to be said about it.
    pub note: Option<String>,
}

/// A recording, its texts as sequences.
pub struct Take {
    pub dir: Seq<char>,
    pub out: Seq<char>,
    pub region: Rect,
    pub mic: Option<Seq<char>>,
    pub cam: Option<Seq<char>>,
    pub state: State,
    pub sealed: nat,
    pub elapsed: nat,
    pub note: Option<Seq<char>>,
}

impl View for Recorder {
    type V = Take;

    open spec fn view(&self) -> Take {
        Take {
            dir: self.dir@,
            out: self.out@,
            region: self.region,
            mic: optional(self.mic),
            cam: optional(self.cam),
            state: self.state,
            sealed: self.sealed as nat,
            elapsed: self.elapsed as nat,
            note: optional(self.note),
        }
    }
}

/// What is to be run for a part: the screen, and the camera where there is one; each
/// with the arguments of ffmpeg and the file for its messages.
pub struct Segment {
    pub screen: Vec<String>,
    pub screen_log: String,
    pub camera: Option<(Vec<String>, String)>,
}

/// The file of part `n` of a lane.
pub open spec fn part_file(dir: Seq<char>, lane: Seq<char>, n: nat) -> Seq<char> {
    joined_path(dir, lane + decimal(n) + ".mp4"@)
}

/// The file for what ffmpeg says while part `n` of a lane is recorded.
pub open spec fn log_file(dir: Seq<char>, lane: Seq<char>, n: nat) -> Seq<char> {
    joined_path(dir, "ffmpeg-"@ + lane + ("-"@ + decimal(n) + ".log"@))
}

fn part_path(dir: &str, lane: &str, n: u32) -> (r: String)
    ensures
        r@ == part_file(dir@, lane@, n as nat),
{
    let number = decimal::show(n as u64);
    let name = text::three(lane, number.as_str(), ".mp4");
    path::join(dir, name.as_str())
}

fn log_path(dir: &str, lane: &str, n: u32) -> (r: String)
    ensures
        r@ == log_file(dir@, lane@, n as nat),
{
    let number = decimal::show(n as u64);
    let tail = text::three("-", number.as_str(), ".log");
    let name = text::three("ffmpeg-", lane, tail.as_str());
    path::join(dir, name.as_str())
}

/// Where a recording that cannot be made is refused, this says why.
pub open spec fn refusal(region: Rect, ffmpeg: bool) -> Option<Seq<char>> {
    if !ffmpeg {
        Some("PATH 上找不到 ffmpeg —— 录屏要用它，先装一个再点"@)
    } else if region.w < MIN_SIDE || region.h < MIN_SIDE {
        Some(
            "窗口太小（"@ + signed(region.w as int) + "x"@ + signed(region.h as int) + "），至少 "@
                + signed(MIN_SIDE as int) + "x"@ + signed(MIN_SIDE as int) + " 才录"@,
        )
    } else {
        None
    }
}

/// What a recording is called that begins at a point in time.
pub open spec fn stem_at(time: Seq<char>) -> Seq<char> {
    "typst-live-"@ + time
}

/// A part as it is to be run.
pub open spec fn is_segment(s: Segment, t: Take, fps: nat) -> bool {
    let n = t.sealed + 1;
    &&& views(s.screen@) == screen_arguments(t.region, t.mic, fps, part_file(t.dir, "s"@, n))
    &&& s.screen_log@ == log_file(t.dir, "screen"@, n)
    &&& match (t.cam, s.camera) {
        (Some(device), Some((args, log))) => {
            &&& views(args@) == camera_arguments(device, part_file(t.dir, "c"@, n))
            &&& log@ == log_file(t.dir, "camera"@, n)
        },
        (None, None) => true,
        _ => false,
    }
}

/// A recording of which a part has begun; `camera_error` is why its camera could not
/// be started, which costs only the camera.
pub open spec fn opened(t: Take, camera_error: Option<Seq<char>>) -> Take {
    match camera_error {
        Some(why) => Take {
            cam: None,
            state: State::Recording,
            note: Some("摄像头起不来（"@ + why + "），这次只录画面"@),
            ..t
        },
        None => Take { state: State::Recording, note: Some("录制中"@), ..t },
    }
}

/// What is left when the end of a recording begins, `passed` nanoseconds after the
/// time was last counted.
pub open spec fn stopping(t: Take, passed: nat) -> Take {
    if t.state == State::Recording {
        Take {
            elapsed: t.elapsed + passed,
            sealed: t.sealed + 1,
            state: State::Finalizing,
            ..t
        }
    } else if t.state == State::Finalizing || t.sealed > 0 {
        Take { state: State::Finalizing, ..t }
    } else {
        Take { state: State::Idle, ..t }
    }
}

/// A recording after a while, where `ended` says of each running ffmpeg, that of the
/// screen first, whether it has ended by itself. Without the screen the recording is
/// interrupted, and the part that was running does not count: stopping keeps the parts
/// before it, and where there is none it is refused. Without the camera the recording
/// goes on.
pub open spec fn ticked(t: Take, passed: nat, ended: Seq<bool>) -> Take {
    if t.state != State::Recording {
        t
    } else {
        let later = Take { elapsed: t.elapsed + passed, ..t };
        if !ended.contains(true) {
            later
        } else if ended[0] {
            Take {
                state: State::Paused,
                note: Some(
                    "录屏中断了（ffmpeg 自己退了）——已写入的部分还在，点停止收尾"@,
                ),
                ..later
            }
        } else {
            Take {
                cam: None,
                note: Some("摄像头断了，画中画这次不做，画面继续录"@),
                ..later
            }
        }
    }
}

/// A recording whose running part was ended.
pub open spec fn paused(t: Take) -> Take {
    if t.state == State::Recording {
        Take { sealed: t.sealed + 1, state: State::Paused, note: Some("已暂停"@), ..t }
    } else {
        t
    }
}

/// The files of a lane that hold something, in order.
pub open spec fn lane_files(dir: Seq<char>, lane: Seq<char>, usable: Seq<bool>) -> Seq<Seq<char>>
    decreases usable.len(),
{
    if usable.len() == 0 {
        Seq::empty()
    } else {
        let before = lane_files(dir, lane, usable.drop_last());
        if usable.last() {
            before.push(part_file(dir, lane, usable.len()))
        } else {
            before
        }
    }
}

fn files_of(dir: &str, lane: &str, usable: &Vec<bool>) -> (r: Vec<String>)
    requires
        usable@.len() <= u32::MAX,
    ensures
        views(r@) == lane_files(dir@, lane@, usable@),
{
    let mut out: Vec<String> = Vec::new();
    let mut i: usize = 0;
    assert(views(out@) =~= Seq::<Seq<char>>::empty());
    while i < usable.len()
        invariant
            i <= usable@.len() <= u32::MAX,
            views(out@) == lane_files(dir@, lane@, usable@.take(i as int)),
        decreases usable@.len() - i,
    {
        assert(usable@.take(i + 1).drop_last() =~= usable@.take(i as int));
        if usable[i] {
            let ghost before = out@;
            let file = part_path(dir, lane, (i + 1) as u32);
            out.push(file);
            assert(views(out@) =~= views(before).push(file@));
        }
        i += 1;
    }
    assert(usable@.take(i as int) =~= usable@);
    out
}

/// How a recording becomes a film: the parts are joined, the camera is laid over the
/// screen, and the film is moved to its place.
pub struct Finalize {
    pub dir: String,
    pub out: String,
    pub screen: Vec<String>,
    pub cam: Vec<String>,
    pub nvenc: bool,
}

/// The parts of the camera that are used: all, and only where there are as many as of
/// the screen.
pub open spec fn camera_parts(t: Take, screen: nat, usable: Seq<bool>) -> Seq<Seq<char>> {
    let files = lane_files(t.dir, "c"@, usable);
    if t.cam is Some && files.len() == screen {
        files
    } else {
        Seq::empty()
    }
}

/// The message of an outcome that failed.
pub open spec fn error_of<T>(r: Result<T, String>) -> Option<Seq<char>> {
    match r {
        Ok(_) => None,
        Err(e) => Some(e@),
    }
}

impl Recorder {
    /// A recording that begins at a point in time, unless it is refused.
    pub fn start(
        out_root: &str,
        region: Rect,
        mic: Option<String>,
        cam: Option<String>,
        time: &str,
        ffmpeg: bool,
    ) -> (r: Result<Self, String>)
        ensures
            error_of(r) == refusal(region, ffmpeg),
            r matches Ok(rec) ==> rec@ == (Take {
                dir: joined_path(out_root@, TEMP_PREFIX@ + stem_at(time@)),
                out: joined_path(out_root@, stem_at(time@) + ".mp4"@),
                region,
                mic: optional(mic),
                cam: optional(cam),
                state: State::Recording,
                sealed: 0,
                elapsed: 0,
                note: Some("录制中"@),
            }),
    {
        if !ffmpeg {
            return Err("PATH 上找不到 ffmpeg —— 录屏要用它，先装一个再点".to_owned());
        }
        if region.w < MIN_SIDE || region.h < MIN_SIDE {
            let w = decimal::show_signed(region.w);
            let h = decimal::show_signed(region.h);
            let least = decimal::show_signed(MIN_SIDE);
            let mut why = "窗口太小（".to_owned();
            why.append(w.as_str());
            why.append("x");
            why.append(h.as_str());
            why.append("），至少 ");
            why.append(least.as_str());
            why.append("x");
            why.append(least.as_str());
            why.append(" 才录");
            return Err(why);
        }
        let stem = text::both("typst-live-", time);
        let hidden = text::both(TEMP_PREFIX, stem.as_str());
        let film = text::both(stem.as_str(), ".mp4");
        Ok(
            Recorder {
                dir: path::join(out_root, hidden.as_str()),
                out: path::join(out_root, film.as_str()),
                region,
                mic,
                cam,
                state: State::Recording,
                sealed: 0,
                elapsed: 0,
                note: Some("录制中".to_owned()),
            },
        )
    }

    /// The next part as it is to be run.
    pub fn segment(&self, fps: u32) -> (r: Segment)
        requires
            self.sealed < u32::MAX,
        ensures
            is_segment(r, self@, fps as nat),
    {
        let n: u32 = self.sealed + 1;
        let dir = self.dir.as_str();
        let screen_file = part_path(dir, "s", n);
        let mic = match &self.mic {
            Some(m) => Some(m.as_str()),
            None => None,
        };
        let camera = match &self.cam {
            Some(device) => {
                let file = part_path(dir, "c", n);
                Some((camera_args(device.as_str(), file.as_str()), log_path(dir, "camera", n)))
            },
            None => None,
        };
        Segment {
            screen: screen_args(self.region, mic, fps, screen_file.as_str()),
            screen_log: log_path(dir, "screen", n),
            camera,
        }
    }

    /// Takes note that a part has begun.
    pub fn open(&mut self, camera_error: Option<&str>)
        ensures
            final(self)@ == opened(old(self)@, said(camera_error)),
    {
        self.state = State::Recording;
        match camera_error {
            Some(why) => {
                self.cam = None;
                self.note = Some(text::three("摄像头起不来（", why, "），这次只录画面"));
            },
            None => {
                self.note = Some("录制中".to_owned());
            },
        }
    }

    /// What the recording is doing.
    pub fn state(&self) -> (r: State)
        ensures
            r == self@.state,
    {
        self.state
    }

    /// How long was recorded, in nanoseconds.
    pub fn elapsed(&self) -> (r: u64)
        ensures
            r == self@.elapsed,
    {
        self.elapsed
    }

    /// Takes note of what happened since the last time. Says what is new, if anything.
    pub fn tick(&mut self, passed: u64, ended: &Vec<bool>) -> (r: Option<String>)
        requires
            old(self)@.state == State::Recording ==> old(self)@.elapsed + passed <= u64::MAX,
        ensures
            final(self)@ == ticked(old(self)@, passed as nat, ended@),
            optional(r) == if old(self)@.state == State::Recording && ended@.contains(true) {
                final(self)@.note
            } else {
                None
            },
    {
        if !(self.state == State::Recording) {
            return None;
        }
        self.elapsed = self.elapsed + passed;
        let mut dead = false;
        let mut i: usize = 0;
        while i < ended.len()
            invariant
                i <= ended@.len(),
                dead == ended@.take(i as int).contains(true),
            decreases ended@.len() - i,
        {
            let ghost seen = ended@.take(i as int);
            let ghost next = ended@.take(i + 1);
            assert(next =~= seen.push(ended@[i as int]));
            if ended[i] {
                dead = true;
                assert(next[i as int]);
            } else if dead {
                let ghost k = choose|k: int| 0 <= k < seen.len() && seen[k];
                assert(next[k]);
            } else {
                assert forall|k: int| 0 <= k < next.len() implies !next[k] by {
                    if k < i {
                        assert(next[k] == seen[k]);
                    }
                }
            }
            i += 1;
        }
        assert(ended@.take(i as int) =~= ended@);
        if !dead {
            return None;
        }
        if ended[0] {
            self.state = State::Paused;
            self.note = Some(
                "录屏中断了（ffmpeg 自己退了）——已写入的部分还在，点停止收尾".to_owned(),
            );
        } else {
            self.cam = None;
            self.note = Some("摄像头断了，画中画这次不做，画面继续录".to_owned());
        }
        self.note.clone()
    }

    /// Pauses. Says whether there is a running part to end.
    pub fn pause(&mut self) -> (r: bool)
        requires
            old(self)@.sealed < u32::MAX,
        ensures
            final(self)@ == paused(old(self)@),
            r == (old(self)@.state == State::Recording),
    {
        if !(self.state == State::Recording) {
            return false;
        }
        self.sealed = self.sealed + 1;
        self.state = State::Paused;
        self.note = Some("已暂停".to_owned());
        true
    }

    /// Goes on after a pause: the part to run, where there was a pause.
    pub fn resume(&self, fps: u32) -> (r: Option<Segment>)
        requires
            self@.sealed < u32::MAX,
        ensures
            r is Some == (self@.state == State::Paused),
            r matches Some(s) ==> is_segment(s, self@, fps as nat),
    {
        if self.state == State::Paused {
            Some(self.segment(fps))
        } else {
            None
        }
    }

    /// Begins to stop, `passed` nanoseconds after the time was last counted. Says
    /// whether there is a running part to end, or why there is nothing to stop: it stops
    /// already, or no part was ended, as after an interruption in the first.
    pub fn begin_stop(&mut self, passed: u64) -> (r: Result<bool, String>)
        requires
            old(self)@.sealed < u32::MAX,
            old(self)@.elapsed + passed <= u64::MAX,
        ensures
            error_of(r) == if old(self)@.state == State::Finalizing {
                Some("收尾还没跑完"@)
            } else if old(self)@.state != State::Recording && old(self)@.sealed == 0 {
                Some("这一段什么都没录到"@)
            } else {
                None
            },
            r matches Ok(running) ==> running == (old(self)@.state == State::Recording),
            final(self)@ == stopping(old(self)@, passed as nat),
    {
        if self.state == State::Finalizing {
            return Err("收尾还没跑完".to_owned());
        }
        let running = self.state == State::Recording;
        if running {
            self.sealed = self.sealed + 1;
            self.elapsed = self.elapsed + passed;
        }
        if self.sealed == 0 {
            self.state = State::Idle;
            return Err("这一段什么都没录到".to_owned());
        }
        self.state = State::Finalizing;
        Ok(running)
    }

    /// Stops: how the film is put together, where `screen` and `camera` say of each
    /// part whether its file holds anything.
    pub fn stop(&mut self, screen: &Vec<bool>, camera: &Vec<bool>, nvenc: bool) -> (r: Result<
        Finalize,
        String,
    >)
        requires
            screen@.len() == old(self)@.sealed,
            camera@.len() == old(self)@.sealed,
        ensures
            error_of(r) == if screen@.contains(true) {
                None
            } else {
                Some("录像文件是空的（ffmpeg 可能没跑起来）"@)
            },
            r matches Ok(plan) ==> {
                let files = lane_files(old(self)@.dir, "s"@, screen@);
                &&& plan.dir@ == old(self)@.dir
                &&& plan.out@ == old(self)@.out
                &&& views(plan.screen@) == files
                &&& files.len() > 0
                &&& views(plan.cam@) == camera_parts(old(self)@, files.len(), camera@)
                &&& plan.nvenc == nvenc
            },
            final(self)@ == (Take {
                state: if r is Ok {
                    old(self)@.state
                } else {
                    State::Idle
                },
                ..old(self)@
            }),
    {
        let dir = self.dir.as_str();
        let files = files_of(dir, "s", screen);
        proof {
            lemma_lane_files(dir@, "s"@, screen@);
        }
        if files.len() == 0 {
            assert(views(files@).len() == 0);
            self.state = State::Idle;
            return Err("录像文件是空的（ffmpeg 可能没跑起来）".to_owned());
        }
        assert(views(files@).len() > 0);
        let mut cam = if self.cam.is_some() {
            files_of(dir, "c", camera)
        } else {
            Vec::new()
        };
        assert(views(cam@).len() == cam@.len());
        if cam.len() != files.len() {
            cam = Vec::new();
        }
        proof {
            if self.cam is None {
                assert(views(cam@) =~= Seq::<Seq<char>>::empty());
            }
            if cam@.len() == 0 {
                assert(views(cam@) =~= Seq::<Seq<char>>::empty());
            }
        }
        Ok(Finalize { dir: self.dir.clone(), out: self.out.clone(), screen: files, cam, nvenc })
    }

    /// Where the parts are.
    pub fn work_dir(&self) -> (r: &str)
        ensures
            r@ == self@.dir,
    {
        self.dir.as_str()
    }
}

/// There are files exactly where a part holds something.
proof fn lemma_lane_files(dir: Seq<char>, lane: Seq<char>, usable: Seq<bool>)
    ensures
        usable.contains(true) == (lane_files(dir, lane, usable).len() > 0),
        lane_files(dir, lane, usable).len() <= usable.len(),
    decreases usable.len(),
{
    if usable.len() > 0 {
        lemma_lane_files(dir, lane, usable.drop_last());
        let rest = usable.drop_last();
        if usable.last() {
            assert(usable[usable.len() - 1]);
        } else if rest.contains(true) {
            let k = choose|k: int| 0 <= k < rest.len() && rest[k];
            assert(usable[k]);
        } else if usable.contains(true) {
            let k = choose|k: int| 0 <= k < usable.len() && usable[k];
            assert(rest[k]);
        }
    }
}

/// No two parts of a lane share a file, so that going on after a pause overwrites nothing.
/// A part whose ffmpeg ended by itself is not sealed: going on takes its number, and so its
/// file, again.
pub proof fn parts_have_files_of_their_own(dir: Seq<char>, lane: Seq<char>, a: nat, b: nat)
    requires
        part_file(dir, lane, a) == part_file(dir, lane, b),
    ensures
        a == b,
{
    let x = lane + decimal(a) + ".mp4"@;
    let y = lane + decimal(b) + ".mp4"@;
    let front = joined_path(dir, Seq::empty());
    assert(part_file(dir, lane, a).skip(front.len() as int) =~= x);
    assert(part_file(dir, lane, b).skip(front.len() as int) =~= y);
    assert(x.len() == y.len());
    assert(x.subrange(lane.len() as int, x.len() - ".mp4"@.len()) =~= decimal(a));
    assert(y.subrange(lane.len() as int, y.len() - ".mp4"@.len()) =~= decimal(b));
    decimal::lemma_number_of_decimal(a);
    decimal::lemma_number_of_decimal(b);
}

/// Trouble with the camera never stops a recording.
pub proof fn camera_trouble_does_not_stop(t: Take, passed: nat, ended: Seq<bool>, why: Seq<char>)
    requires
        t.state == State::Recording,
        ended.len() > 0 ==> !ended[0],
    ensures
        ticked(t, passed, ended).state == State::Recording,
        opened(t, Some(why)).state == State::Recording,
        opened(t, Some(why)).sealed == t.sealed,
{
}

/// A pause adds no time, and what follows it is a new part.
pub proof fn pausing_seals_the_part(t: Take)
    requires
        t.state == State::Recording,
    ensures
        paused(t).sealed == t.sealed + 1,
        paused(t).elapsed == t.elapsed,
        paused(paused(t)) == paused(t),
        opened(paused(t), None) == (Take { sealed: t.sealed + 1, note: Some("录制中"@), ..t }),
{
}

/// Time counts only while something is recorded, also at the end.
pub proof fn time_stands_still_in_a_pause(t: Take, passed: nat, ended: Seq<bool>)
    requires
        t.state != State::Recording,
    ensures
        ticked(t, passed, ended) == t,
        stopping(t, passed).elapsed == t.elapsed,
{
}

/// Whether a film holds anything; `size` is none where there is no such file.
pub fn usable(size: Option<u64>) -> (r: bool)
    ensures
        r == (size is Some && size->0 > EMPTY_SIZE),
{
    match size {
        Some(n) => n > EMPTY_SIZE,
        None => false,
    }
}

/// The film and what is to be said about how it was made.
#[derive(Debug, Clone, PartialEq, Eq)]
pub struct Done {
    pub path: String,
    pub notes: Vec<String>,
}

/// Where the making of a film has got to.
#[derive(Debug, Clone, Copy, PartialEq, Eq, Structural)]
pub enum Stage {
    /// The parts of the screen are to be joined.
    Screen,
    /// The parts of the camera are to be joined.
    Camera,
    /// The camera is to be laid over the screen.
    Overlay,
    /// The film is to be moved to its place.
    Deliver,
    /// The parts are to be removed.
    Clear,
    /// Nothing is left to do.
    Over,
}

/// How a task ended.
pub enum Report {
    /// As it should.
    Good,
    /// What came out is empty.
    Empty,
    /// It failed; why.
    Failed(String),
}

/// What is to be done next.
pub enum Task {
    /// Write `text` to `list` and run ffmpeg.
    Join { list: String, text: String, args: Vec<String>, out: String },
    /// Run ffmpeg.
    Overlay { args: Vec<String>, out: String },
    /// Move a file.
    Deliver { from: String, to: String },
    /// Remove a directory.
    Clear { dir: String },
    /// Nothing.
    Over,
}

/// The making of a film.
pub struct Finishing {
    pub plan: Finalize,
    pub stage: Stage,
    /// The screen, once it is joined.
    pub screen: String,
    /// The camera, once it is joined.
    pub cam: Option<String>,
    /// What becomes the film.
    pub film: String,
    pub notes: Vec<String>,
    /// Why there is no film.
    pub failed: Option<String>,
}

/// A plan, its texts as sequences.
pub struct Plan {
    pub dir: Seq<char>,
    pub out: Seq<char>,
    pub screen: Seq<Seq<char>>,
    pub cam: Seq<Seq<char>>,
    pub nvenc: bool,
}

/// The making of a film, its texts as sequences.
pub struct Work {
    pub plan: Plan,
    pub stage: Stage,
    pub screen: Seq<char>,
    pub cam: Option<Seq<char>>,
    pub film: Seq<char>,
    pub notes: Seq<Seq<char>>,
    pub failed: Option<Seq<char>>,
}

impl View for Finalize {
    type V = Plan;

    open spec fn view(&self) -> Plan {
        Plan {
            dir: self.dir@,
            out: self.out@,
            screen: views(self.screen@),
            cam: views(self.cam@),
            nvenc: self.nvenc,
        }
    }
}

impl View for Finishing {
    type V = Work;

    open spec fn view(&self) -> Work {
        Work {
            plan: self.plan@,
            stage: self.stage,
            screen: self.screen@,
            cam: optional(self.cam),
            film: self.film@,
            notes: views(self.notes@),
            failed: optional(self.failed),
        }
    }
}

/// The list of the parts of a lane.
pub open spec fn list_file(dir: Seq<char>, lane: Seq<char>) -> Seq<char> {
    joined_path(dir, "list-"@ + lane + ".txt"@)
}

/// The parts of a lane as one file.
pub open spec fn joined_file(dir: Seq<char>, lane: Seq<char>) -> Seq<char> {
    joined_path(dir, "joined-"@ + lane + ".mp4"@)
}

/// The screen with the camera laid over it.
pub open spec fn overlay_file(dir: Seq<char>) -> Seq<char> {
    joined_path(dir, "pip.mp4"@)
}

/// Why joining failed, if it did.
pub open spec fn join_error(report: Report) -> Option<Seq<char>> {
    match report {
        Report::Good => None,
        Report::Empty => Some("拼接结果是空的"@),
        Report::Failed(e) => Some(e@),
    }
}

/// What is noted when more than two parts were joined.
pub open spec fn count_note(parts: nat) -> Seq<Seq<char>> {
    if parts > 2 {
        seq![decimal(parts) + " 段合成一段"@]
    } else {
        Seq::empty()
    }
}

/// Goes on with the camera as one file, or without it.
pub open spec fn with_camera(w: Work, cam: Option<Seq<char>>) -> Work {
    Work {
        cam,
        stage: if cam is Some {
            Stage::Overlay
        } else {
            Stage::Deliver
        },
        ..w
    }
}

/// Goes on with the screen as one file.
pub open spec fn with_screen(w: Work, file: Seq<char>) -> Work {
    let next = Work { screen: file, film: file, ..w };
    if w.plan.cam.len() == 0 {
        with_camera(next, None)
    } else if w.plan.cam.len() == 1 {
        with_camera(next, Some(w.plan.cam[0]))
    } else {
        Work { stage: Stage::Camera, ..next }
    }
}

/// The making of a film when nothing has been done.
pub open spec fn begun(plan: Plan) -> Work {
    let w = Work {
        plan,
        stage: Stage::Screen,
        screen: Seq::empty(),
        cam: None,
        film: Seq::empty(),
        notes: Seq::empty(),
        failed: None,
    };
    if plan.screen.len() == 1 {
        with_screen(w, plan.screen[0])
    } else {
        w
    }
}

/// The making of a film after a task has ended. What concerns the camera is noted and
/// costs only the picture in the picture.
pub open spec fn advanced(w: Work, report: Report) -> Work {
    match w.stage {
        Stage::Screen => match join_error(report) {
            Some(e) => Work { stage: Stage::Over, failed: Some(e), ..w },
            None => with_screen(
                Work { notes: w.notes + count_note(w.plan.screen.len()), ..w },
                joined_file(w.plan.dir, "s"@),
            ),
        },
        Stage::Camera => match join_error(report) {
            Some(e) => with_camera(
                Work {
                    notes: w.notes.push("摄像头那一路拼接失败（"@ + e + "），这次不出画中画"@),
                    ..w
                },
                None,
            ),
            None => with_camera(
                Work { notes: w.notes + count_note(w.plan.cam.len()), ..w },
                Some(joined_file(w.plan.dir, "c"@)),
            ),
        },
        Stage::Overlay => match report {
            Report::Good => Work {
                stage: Stage::Deliver,
                film: overlay_file(w.plan.dir),
                ..w
            },
            Report::Empty => Work {
                stage: Stage::Deliver,
                notes: w.notes.push("画中画合成了空文件，这次不出画中画"@),
                ..w
            },
            Report::Failed(e) => Work {
                stage: Stage::Deliver,
                notes: w.notes.push("画中画合成失败（"@ + e@ + "），这次不出画中画"@),
                ..w
            },
        },
        Stage::Deliver => match report {
            Report::Failed(e) => Work { stage: Stage::Over, failed: Some(e@), ..w },
            _ => Work { stage: Stage::Clear, ..w },
        },
        Stage::Clear => match report {
            Report::Failed(e) => Work {
                stage: Stage::Over,
                notes: w.notes.push("临时目录没清掉（"@ + w.plan.dir + "）："@ + e@),
                ..w
            },
            _ => Work { stage: Stage::Over, ..w },
        },
        Stage::Over => w,
    }
}

/// `task` is what is to be done next.
pub open spec fn is_task(task: Task, w: Work) -> bool {
    match (w.stage, task) {
        (Stage::Screen, Task::Join { list, text, args, out }) => {
            &&& list@ == list_file(w.plan.dir, "s"@)
            &&& text@ == join_list(w.plan.screen)
            &&& out@ == joined_file(w.plan.dir, "s"@)
            &&& views(args@) == concat_arguments(list@, out@)
        },
        (Stage::Camera, Task::Join { list, text, args, out }) => {
            &&& list@ == list_file(w.plan.dir, "c"@)
            &&& text@ == join_list(w.plan.cam)
            &&& out@ == joined_file(w.plan.dir, "c"@)
            &&& views(args@) == concat_arguments(list@, out@)
        },
        (Stage::Overlay, Task::Overlay { args, out }) => {
            &&& w.cam is Some
            &&& out@ == overlay_file(w.plan.dir)
            &&& views(args@) == overlay_arguments(w.screen, w.cam->0, out@, w.plan.nvenc)
        },
        (Stage::Deliver, Task::Deliver { from, to }) => from@ == w.film && to@ == w.plan.out,
        (Stage::Clear, Task::Clear { dir }) => dir@ == w.plan.dir,
        (Stage::Over, Task::Over) => true,
        _ => false,
    }
}

fn join_task(dir: &str, lane: &str, files: &Vec<String>) -> (r: Task)
    ensures
        r matches Task::Join { list, text, args, out } && {
            &&& list@ == list_file(dir@, lane@)
            &&& text@ == join_list(views(files@))
            &&& out@ == joined_file(dir@, lane@)
            &&& views(args@) == concat_arguments(list@, out@)
        },
{
    let list_name = text::three("list-", lane, ".txt");
    let list = path::join(dir, list_name.as_str());
    let out = joined_name(dir, lane);
    let args = concat_args(list.as_str(), out.as_str());
    Task::Join { list, text: concat_list_text(files.as_slice()), args, out }
}

fn joined_name(dir: &str, lane: &str) -> (r: String)
    ensures
        r@ == joined_file(dir@, lane@),
{
    let name = text::three("joined-", lane, ".mp4");
    path::join(dir, name.as_str())
}

fn join_failure(report: &Report) -> (r: Option<String>)
    ensures
        optional(r) == join_error(*report),
{
    match report {
        Report::Good => None,
        Report::Empty => Some("拼接结果是空的".to_owned()),
        Report::Failed(e) => Some(e.clone()),
    }
}

fn add_note(notes: &mut Vec<String>, note: String)
    ensures
        views(final(notes)@) == views(old(notes)@).push(note@),
{
    let ghost before = notes@;
    notes.push(note);
    assert(views(notes@) =~= views(before).push(note@));
}

fn add_count(notes: &mut Vec<String>, parts: usize)
    ensures
        views(final(notes)@) == views(old(notes)@) + count_note(parts as nat),
{
    if parts > 2 {
        let number = decimal::show_size(parts);
        let note = text::both(number.as_str(), " 段合成一段");
        add_note(notes, note);
        assert(views(notes@) =~= views(old(notes)@) + count_note(parts as nat));
    } else {
        assert(views(notes@) =~= views(old(notes)@) + count_note(parts as nat));
    }
}

impl Finishing {
    /// There is a camera where it is to be laid over the screen.
    pub open spec fn valid(self) -> bool {
        self.stage == Stage::Overlay ==> self.cam is Some
    }

    /// The making of a film when nothing has been done.
    pub fn begin(plan: Finalize) -> (r: Self)
        requires
            plan.screen@.len() > 0,
        ensures
            r@ == begun(plan@),
            r.valid(),
    {
        let single = plan.screen.len() == 1;
        let mut w = Finishing {
            plan,
            stage: Stage::Screen,
            screen: String::new(),
            cam: None,
            film: String::new(),
            notes: Vec::new(),
            failed: None,
        };
        assert(w@.notes =~= Seq::<Seq<char>>::empty());
        assert(w@.screen =~= Seq::<char>::empty());
        assert(w@.film =~= Seq::<char>::empty());
        if single {
            let file = w.plan.screen[0].clone();
            assert(file@ == plan@.screen[0]);
            w.use_screen(file);
        }
        w
    }

    fn use_camera(&mut self, cam: Option<String>)
        ensures
            final(self)@ == with_camera(old(self)@, optional(cam)),
            final(self).valid(),
    {
        self.stage = if cam.is_some() {
            Stage::Overlay
        } else {
            Stage::Deliver
        };
        self.cam = cam;
    }

    fn use_screen(&mut self, file: String)
        ensures
            final(self)@ == with_screen(old(self)@, file@),
            final(self).valid(),
    {
        self.film = file.clone();
        self.screen = file;
        let n: usize = self.plan.cam.len();
        assert(n == self@.plan.cam.len());
        if n == 0 {
            self.use_camera(None);
        } else if n == 1 {
            let only = self.plan.cam[0].clone();
            assert(only@ == self@.plan.cam[0]);
            self.use_camera(Some(only));
        } else {
            self.stage = Stage::Camera;
        }
    }

    /// What is to be done next.
    pub fn task(&self) -> (r: Task)
        requires
            self.valid(),
        ensures
            is_task(r, self@),
    {
        let dir = self.plan.dir.as_str();
        match self.stage {
            Stage::Screen => join_task(dir, "s", &self.plan.screen),
            Stage::Camera => join_task(dir, "c", &self.plan.cam),
            Stage::Overlay => {
                let out = path::join(dir, "pip.mp4");
                let cam = match &self.cam {
                    Some(c) => c.as_str(),
                    None => "",
                };
                let args = overlay_args(self.screen.as_str(), cam, out.as_str(), self.plan.nvenc);
                Task::Overlay { args, out }
            },
            Stage::Deliver => Task::Deliver { from: self.film.clone(), to: self.plan.out.clone() },
            Stage::Clear => Task::Clear { dir: self.plan.dir.clone() },
            Stage::Over => Task::Over,
        }
    }

    /// Takes note of how a task ended. A film that was moved, and a directory that was
    /// removed, are never empty.
    pub fn feed(&mut self, report: &Report)
        requires
            old(self).valid(),
            old(self).stage == Stage::Deliver || old(self).stage == Stage::Clear ==> !(*report
                is Empty),
        ensures
            final(self)@ == advanced(old(self)@, *report),
            final(self).valid(),
    {
        match self.stage {
            Stage::Screen => match join_failure(report) {
                Some(e) => {
                    self.failed = Some(e);
                    self.stage = Stage::Over;
                },
                None => {
                    let n: usize = self.plan.screen.len();
                    assert(n == self@.plan.screen.len());
                    add_count(&mut self.notes, n);
                    let file = joined_name(self.plan.dir.as_str(), "s");
                    self.use_screen(file);
                },
            },
            Stage::Camera => match join_failure(report) {
                Some(e) => {
                    let note = text::three(
                        "摄像头那一路拼接失败（",
                        e.as_str(),
                        "），这次不出画中画",
                    );
                    add_note(&mut self.notes, note);
                    self.use_camera(None);
                },
                None => {
                    let n: usize = self.plan.cam.len();
                    assert(n == self@.plan.cam.len());
                    add_count(&mut self.notes, n);
                    let file = joined_name(self.plan.dir.as_str(), "c");
                    self.use_camera(Some(file));
                },
            },
            Stage::Overlay => {
                match report {
                    Report::Good => {
                        self.film = path::join(self.plan.dir.as_str(), "pip.mp4");
                    },
                    Report::Empty => {
                        let note = "画中画合成了空文件，这次不出画中画".to_owned();
                        add_note(&mut self.notes, note);
                    },
                    Report::Failed(e) => {
                        let note = text::three(
                            "画中画合成失败（",
                            e.as_str(),
                            "），这次不出画中画",
                        );
                        add_note(&mut self.notes, note);
                    },
                }
                self.stage = Stage::Deliver;
            },
            Stage::Deliver => match report {
                Report::Failed(e) => {
                    self.failed = Some(e.clone());
                    self.stage = Stage::Over;
                },
                _ => {
                    self.stage = Stage::Clear;
                },
            },
            Stage::Clear => {
                if let Report::Failed(e) = report {
                    let mut note = text::three(
                        "临时目录没清掉（",
                        self.plan.dir.as_str(),
                        "）：",
                    );
                    note.append(e.as_str());
                    add_note(&mut self.notes, note);
                }
                self.stage = Stage::Over;
            },
            Stage::Over => {},
        }
    }

    /// The film, or why there is none.
    pub fn outcome(self) -> (r: Result<Done, String>)
        ensures
            error_of(r) == self@.failed,
            r matches Ok(done) ==> done.path@ == self@.plan.out && views(done.notes@)
                == self@.notes,
    {
        match self.failed {
            Some(e) => Err(e),
            None => Ok(Done { path: self.plan.out, notes: self.notes }),
        }
    }
}

/// Whatever happens to the camera, the recording goes on to become a film.
pub proof fn camera_trouble_costs_only_the_camera(w: Work, report: Report)
    requires
        w.stage == Stage::Camera || w.stage == Stage::Overlay,
    ensures
        advanced(w, report).failed == w.failed,
        advanced(w, report).stage != Stage::Over,
        !(report is Good) ==> advanced(w, report).film == w.film && advanced(w, report).stage
            == Stage::Deliver && advanced(w, report).notes.len() == w.notes.len() + 1,
{
}

/// The number of the stage in the order in which stages are gone through.
pub open spec fn rank(s: Stage) -> int {
    match s {
        Stage::Screen => 0,
        Stage::Camera => 1,
        Stage::Overlay => 2,
        Stage::Deliver => 3,
        Stage::Clear => 4,
        Stage::Over => 5,
    }
}

/// Each task leads to a later stage, so that a film is made in at most five tasks.
pub proof fn every_task_leads_on(w: Work, report: Report)
    requires
        w.stage != Stage::Over,
    ensures
        rank(advanced(w, report).stage) > rank(w.stage),
{
}

/// What is said where the list of parts cannot be written.
pub fn list_error(why: &str) -> (r: String)
    ensures
        r@ == "写不了拼接清单："@ + why@,
{
    text::both("写不了拼接清单：", why)
}

/// What is said where a film can be neither moved nor copied.
pub fn move_error(rename: &str, copy: &str) -> (r: String)
    ensures
        r@ == "成品挪不过去："@ + rename@ + " / 复制也失败："@ + copy@,
{
    let mut out = text::three("成品挪不过去：", rename, " / 复制也失败：");
    out.append(copy);
    out
}

/// What is said where ffmpeg cannot be started.
pub fn ffmpeg_error(why: &str) -> (r: String)
    ensures
        r@ == "起不了 ffmpeg："@ + why@,
{
    text::both("起不了 ffmpeg：", why)
}

/// What is said where the directory of the parts cannot be made.
pub fn temp_dir_error(dir: &str, why: &str) -> (r: String)
    ensures
        r@ == "建不了临时目录「"@ + dir@ + "」："@ + why@,
{
    let mut out = text::three("建不了临时目录「", dir, "」：");
    out.append(why);
    out
}

/// The lines that are not blank.
pub open spec fn not_blank(lines: Seq<Seq<char>>) -> Seq<Seq<char>>
    decreases lines.len(),
{
    if lines.len() == 0 {
        Seq::empty()
    } else if trimmed(lines.last()).len() == 0 {
        not_blank(lines.drop_last())
    } else {
        not_blank(lines.drop_last()).push(lines.last())
    }
}

/// The last two lines that are not blank, the last one first.
pub open spec fn last_words(stderr: Seq<char>) -> Seq<Seq<char>> {
    let l = not_blank(text_lines(stderr));
    if l.len() == 0 {
        Seq::empty()
    } else if l.len() == 1 {
        seq![l[0]]
    } else {
        seq![l[l.len() - 1], l[l.len() - 2]]
    }
}

/// An exit code, where there is one.
pub open spec fn code_text(code: Option<i32>) -> Seq<char> {
    match code {
        Some(c) => "Some("@ + signed(c as int) + ")"@,
        None => "None"@,
    }
}

/// What is said where ffmpeg failed.
pub fn ffmpeg_failure(code: Option<i32>, stderr: &str) -> (r: String)
    ensures
        r@ == "ffmpeg 退出码 "@ + code_text(code) + "："@ + joined(last_words(stderr@), " / "@),
{
    let lines = text::lines(stderr);
    let ghost all = views(lines@);
    let mut kept: Vec<String> = Vec::new();
    assert(views(kept@) =~= Seq::<Seq<char>>::empty());
    let mut i: usize = 0;
    while i < lines.len()
        invariant
            i <= lines@.len(),
            all == views(lines@),
            views(kept@) == not_blank(all.take(i as int)),
        decreases lines@.len() - i,
    {
        assert(all.take(i + 1).drop_last() =~= all.take(i as int));
        assert(all.take(i + 1).last() == lines@[i as int]@);
        if !text::is_blank(lines[i].as_str()) {
            add_note(&mut kept, lines[i].clone());
        }
        i += 1;
    }
    assert(all.take(i as int) =~= all);
    let n: usize = kept.len();
    assert(n == views(kept@).len());
    let mut last: Vec<String> = Vec::new();
    if n > 0 {
        last.push(kept[n - 1].clone());
    }
    if n > 1 {
        last.push(kept[n - 2].clone());
    }
    assert(views(last@) =~= last_words(stderr@));
    let count: usize = last.len();
    assert(views(last@).take(count as int) =~= views(last@));
    let words = text::join(&last, count, " / ");
    let code_word = match code {
        Some(c) => {
            let number = decimal::show_signed(c);
            text::three("Some(", number.as_str(), ")")
        },
        None => "None".to_owned(),
    };
    let mut out = text::three("ffmpeg 退出码 ", code_word.as_str(), "：");
    out.append(words.as_str());
    out
}

/// Where films go that cannot go to `OUT_DIR`.
pub open spec fn fallback(profile: Option<Seq<char>>, temp: Seq<char>) -> Seq<char> {
    match profile {
        Some(p) => joined_path(joined_path(p, "Videos"@), FALLBACK_OUT_DIR@),
        None => joined_path(temp, FALLBACK_OUT_DIR@),
    }
}

/// Where films go, and what is to be said about it: `made` says whether `OUT_DIR` is
/// there.
pub fn out_dir(made: bool, profile: Option<&str>, temp: &str) -> (r: (String, Option<String>))
    ensures
        r.0@ == if made {
            OUT_DIR@
        } else {
            fallback(said(profile), temp@)
        },
        optional(r.1) == if made {
            None
        } else {
            Some(OUT_DIR@ + " 建不出来，这次落到「"@ + fallback(said(profile), temp@) + "」"@)
        },
{
    if made {
        return (OUT_DIR.to_owned(), None);
    }
    let dir = match profile {
        Some(p) => {
            let videos = path::join(p, "Videos");
            path::join(videos.as_str(), FALLBACK_OUT_DIR)
        },
        None => path::join(temp, FALLBACK_OUT_DIR),
    };
    let mut note = text::three(OUT_DIR, " 建不出来，这次落到「", dir.as_str());
    note.append("」");
    (dir, Some(note))
}

/// Why a window cannot be captured, if it cannot: `found` says whether there is one;
/// the monitor comes with whether it is the main one.
pub open spec fn capture_error(found: bool, monitor: Option<(Rect, bool)>, win: Option<Rect>) -> Option<
    Seq<char>,
> {
    if !found {
        Some("拿不到窗口句柄，这次录不了"@)
    } else {
        match monitor {
            None => Some("问不出显示器范围，这次录不了"@),
            Some((screen, main)) => if !main {
                Some("录屏只支持主显示器（gdigrab 的桌面以主屏左上角为原点）"@)
            } else {
                match win {
                    None => Some("量不出窗口大小，这次录不了"@),
                    Some(w) => if cropped(w, screen, MIN_SIDE as int) is None {
                        Some(
                            "窗口太小 / 露出屏幕太少（"@ + signed(w.w as int) + "x"@ + signed(
                                w.h as int,
                            ) + "），至少 "@ + signed(MIN_SIDE as int) + "x"@ + signed(
                                MIN_SIDE as int,
                            ) + " 才录"@,
                        )
                    } else {
                        None
                    },
                }
            },
        }
    }
}

/// The part of the screen that is recorded, or why none is.
pub fn capture_region(found: bool, monitor: Option<(Rect, bool)>, win: Option<Rect>) -> (r: Result<
    Rect,
    String,
>)
    requires
        monitor matches Some((screen, _)) ==> win matches Some(w) ==> {
            &&& w.valid()
            &&& screen.valid()
            &&& i32::MIN <= common_width(w, screen) <= i32::MAX
            &&& i32::MIN <= common_height(w, screen) <= i32::MAX
        },
    ensures
        error_of(r) == capture_error(found, monitor, win),
        r matches Ok(part) ==> numbers(Some(part)) == cropped(
            win->0,
            (monitor->0).0,
            MIN_SIDE as int,
        ),
{
    if !found {
        return Err("拿不到窗口句柄，这次录不了".to_owned());
    }
    let (screen, main) = match monitor {
        Some(m) => m,
        None => {
            return Err("问不出显示器范围，这次录不了".to_owned());
        },
    };
    if !main {
        return Err(
            "录屏只支持主显示器（gdigrab 的桌面以主屏左上角为原点）".to_owned(),
        );
    }
    let w = match win {
        Some(w) => w,
        None => {
            return Err("量不出窗口大小，这次录不了".to_owned());
        },
    };
    match crop_region(w, screen, MIN_SIDE) {
        Some(part) => Ok(part),
        None => {
            let wide = decimal::show_signed(w.w);
            let high = decimal::show_signed(w.h);
            let least = decimal::show_signed(MIN_SIDE);
            let mut why = "窗口太小 / 露出屏幕太少（".to_owned();
            why.append(wide.as_str());
            why.append("x");
            why.append(high.as_str());
            why.append("），至少 ");
            why.append(least.as_str());
            why.append("x");
            why.append(least.as_str());
            why.append(" 才录");
            Err(why)
        },
    }
}

/// The device that is recorded from, where it is wanted and there is one.
pub fn device_for(wanted: bool, device: &Option<String>) -> (r: Option<String>)
    ensures
        optional(r) == if wanted {
            optional(*device)
        } else {
            None
        },
{
    if wanted {
        device.clone()
    } else {
        None
    }
}

/// What is said when a recording has begun: where the films go if not where they
/// should, or which device is missing.
pub fn started_message(dir_note: Option<String>, has_mic: bool, wants_cam: bool, has_cam: bool) -> (r:
    String)
    ensures
        r@ == match dir_note {
            Some(note) => note@,
            None => if !has_mic {
                "录制中（没找到麦克风设备 → 只有画面）"@
            } else if !has_cam && wants_cam {
                "录制中（没找到摄像头设备 → 没有画中画）"@
            } else {
                "录制中"@
            },
        },
{
    match dir_note {
        Some(note) => note,
        None => if !has_mic {
            "录制中（没找到麦克风设备 → 只有画面）".to_owned()
        } else if !has_cam && wants_cam {
            "录制中（没找到摄像头设备 → 没有画中画）".to_owned()
        } else {
            "录制中".to_owned()
        },
    }
}

/// What is said after the recording was to pause or go on.
pub fn pause_message(state: State, error: Option<&str>) -> (r: String)
    ensures
        r@ == match error {
            Some(why) => "暂停 / 继续失败："@ + why@,
            None => if state == State::Paused {
                "已暂停（继续时接着录，拼接处不留洞）"@
            } else {
                "录制中"@
            },
        },
{
    match error {
        Some(why) => text::both("暂停 / 继续失败：", why),
        None => if state == State::Paused {
            "已暂停（继续时接着录，拼接处不留洞）".to_owned()
        } else {
            "录制中".to_owned()
        },
    }
}

/// Notes, each in brackets.
pub open spec fn bracketed(notes: Seq<Seq<char>>) -> Seq<char>
    decreases notes.len(),
{
    if notes.len() == 0 {
        Seq::empty()
    } else {
        bracketed(notes.drop_last()) + ("（"@ + notes.last() + "）"@)
    }
}

/// What is said when a film was made, or why there is none.
pub fn done_message(done: &Result<Done, String>) -> (r: String)
    ensures
        r@ == match *done {
            Ok(d) => "已保存 "@ + d.path@ + bracketed(views(d.notes@)),
            Err(why) => "收尾失败："@ + why@,
        },
{
    match done {
        Err(why) => text::both("收尾失败：", why.as_str()),
        Ok(d) => {
            let mut out = text::both("已保存 ", d.path.as_str());
            let ghost head = out@;
            let ghost all = views(d.notes@);
            let mut i: usize = 0;
            assert(out@ =~= head + bracketed(all.take(0)));
            while i < d.notes.len()
                invariant
                    i <= d.notes@.len(),
                    all == views(d.notes@),
                    out@ == head + bracketed(all.take(i as int)),
                decreases d.notes@.len() - i,
            {
                assert(all.take(i + 1).drop_last() =~= all.take(i as int));
                assert(all.take(i + 1).last() == d.notes@[i as int]@);
                let note = text::three("（", d.notes[i].as_str(), "）");
                out.append(note.as_str());
                assert(out@ =~= head + bracketed(all.take(i + 1)));
                i += 1;
            }
            assert(all.take(i as int) =~= all);
            out
        },
    }
}

/// What is said when a recording is asked for while the last one is still finished.
pub const BUSY_MESSAGE: &'static str = "上一段的收尾还在跑，等它完";

/// What is said while a film is put together.
pub const FINISHING_MESSAGE: &'static str = "收尾中（拼接 / 画中画合成）…";

/// What is said when a recording does not begin.
pub fn start_error(why: &str) -> (r: String)
    ensures
        r@ == "录不了："@ + why@,
{
    text::both("录不了：", why)
}

/// Nothing of the window that is on the monitor is left out, but for one column and one row
/// where the sides are not even.
pub proof fn all_that_is_seen_is_captured(win: Rect, monitor: Rect, min_side: int, px: int, py: int)
    requires
        cropped(win, monitor, min_side) is Some,
        win.x <= px < win.x + win.w,
        win.y <= py < win.y + win.h,
        monitor.x <= px < monitor.x + monitor.w,
        monitor.y <= py < monitor.y + monitor.h,
    ensures
        ({
            let (x, y, w, h) = cropped(win, monitor, min_side)->0;
            &&& x <= px < x + w || (px == x + w && (px + 1 == win.x + win.w || px + 1 == monitor.x
                + monitor.w))
            &&& y <= py < y + h || (py == y + h && (py + 1 == win.y + win.h || py + 1 == monitor.y
                + monitor.h))
        }),
{
}

/// A window of which too little is on the monitor is not captured.
pub proof fn small_parts_are_not_captured(win: Rect, monitor: Rect, min_side: int)
    requires
        win.x + win.w < monitor.x + min_side || monitor.x + monitor.w < win.x + min_side || win.w
            < min_side || win.y + win.h < monitor.y + min_side || monitor.y + monitor.h < win.y
            + min_side || win.h < min_side,
        min_side >= 0,
    ensures
        cropped(win, monitor, min_side) is None,
{
}

/// `numbers` are those of the parts that can be used, in order and without a gap.
pub open spec fn are_usable(usable: Seq<bool>, numbers: Seq<nat>) -> bool {
    &&& forall|k: int|
        0 <= k < numbers.len() ==> 1 <= #[trigger] numbers[k] <= usable.len() && usable[numbers[k]
            - 1]
    &&& forall|j: int, k: int| 0 <= j < k < numbers.len() ==> numbers[j] < numbers[k]
    &&& forall|i: int| 0 <= i < usable.len() && #[trigger] usable[i] ==> numbers.contains(
        (i + 1) as nat,
    )
}

/// A film is made of every part that can be used, in the order in which they were recorded.
pub proof fn no_part_is_left_out(dir: Seq<char>, lane: Seq<char>, usable: Seq<bool>) -> (numbers:
    Seq<nat>)
    ensures
        are_usable(usable, numbers),
        lane_files(dir, lane, usable) == numbers.map_values(|n: nat| part_file(dir, lane, n)),
    decreases usable.len(),
{
    let f = |n: nat| part_file(dir, lane, n);
    if usable.len() == 0 {
        let none = Seq::<nat>::empty();
        assert(lane_files(dir, lane, usable) =~= none.map_values(f));
        none
    } else {
        let some = usable.drop_last();
        let before = no_part_is_left_out(dir, lane, some);
        let n = usable.len();
        let now = if usable.last() {
            before.push(n)
        } else {
            before
        };
        assert forall|k: int| 0 <= k < now.len() implies 1 <= #[trigger] now[k] <= n && usable[now[k]
            - 1] by {
            if k < before.len() {
                assert(now[k] == before[k]);
                assert(some[before[k] - 1]);
            }
        }
        assert forall|j: int, k: int| 0 <= j < k < now.len() implies now[j] < now[k] by {
            assert(now[j] == before[j]);
            if k < before.len() {
                assert(now[k] == before[k]);
            }
        }
        assert forall|i: int| 0 <= i < usable.len() && #[trigger] usable[i] implies now.contains(
            (i + 1) as nat,
        ) by {
            if i < some.len() {
                assert(some[i]);
                assert(before.contains((i + 1) as nat));
                let k = choose|k: int| 0 <= k < before.len() && before[k] == (i + 1) as nat;
                assert(now[k] == before[k]);
            } else {
                assert(now.last() == n);
            }
        }
        assert(lane_files(dir, lane, usable) =~= now.map_values(f));
        now
    }
}

/// A name is written character by character: a single quote as a closing quote, an escaped
/// one and an opening one, and anything else as it is.
pub proof fn names_are_quoted_one_character_at_a_time(a: Seq<char>, c: char)
    ensures
        quoted(a.push(c)) == quoted(a) + if c == '\'' {
            seq!['\'', '\\', '\'', '\'']
        } else {
            seq![c]
        },
        quoted(Seq::empty()) == Seq::<char>::empty(),
{
    reveal_strlit("'\\''");
    assert("'\\''"@ =~= seq!['\'', '\\', '\'', '\'']);
    assert(a.push(c).drop_last() =~= a);
    assert(quoted(a).push(c) =~= quoted(a) + seq![c]);
}

/// The list of parts has a line for each of them, in order.
pub proof fn every_part_is_listed(a: Seq<Seq<char>>, file: Seq<char>, b: Seq<Seq<char>>)
    ensures
        join_list(a + seq![file] + b) == join_list(a) + ("file '"@ + quoted(file) + "'\n"@)
            + join_list(b),
    decreases b.len(),
{
    let all = a + seq![file] + b;
    if b.len() == 0 {
        assert(all.drop_last() =~= a);
        assert(join_list(all) =~= join_list(a) + ("file '"@ + quoted(file) + "'\n"@) + join_list(b));
    } else {
        every_part_is_listed(a, file, b.drop_last());
        assert(all.drop_last() =~= a + seq![file] + b.drop_last());
        assert(all.last() == b.last());
        assert(join_list(all) =~= join_list(a) + ("file '"@ + quoted(file) + "'\n"@) + join_list(b));
    }
}

/// Hours, minutes and seconds are shown as they are.
pub proof fn the_clock_shows_the_time(h: nat, m: nat, s: nat)
    requires
        m < 60,
        s < 60,
    ensures
        h > 0 ==> clock(h * 3600 + m * 60 + s) == decimal(h) + ":"@ + decimal::padded(m, 2) + ":"@
            + decimal::padded(s, 2),
        clock(m * 60 + s) == decimal::padded(m, 2) + ":"@ + decimal::padded(s, 2),
{
    let t = h * 3600 + m * 60 + s;
    assert(t / 3600 == h && t % 3600 == m * 60 + s) by (nonlinear_arith)
        requires
            t == h * 3600 + m * 60 + s,
            m < 60,
            s < 60,
    ;
    assert((m * 60 + s) / 60 == m && (m * 60 + s) % 60 == s);
    assert(t % 60 == s) by (nonlinear_arith)
        requires
            t == h * 3600 + m * 60 + s,
            s < 60,
    ;
}

/// What is known of a film in the making: the screen is the one part or all parts joined,
/// and the film is the screen, or the screen with the camera laid over it.
pub open spec fn is_well_made(w: Work) -> bool {
    &&& w.stage != Stage::Screen && w.failed is None ==> w.screen == if w.plan.screen.len() == 1 {
        w.plan.screen[0]
    } else {
        joined_file(w.plan.dir, "s"@)
    }
    &&& w.stage == Stage::Camera || w.stage == Stage::Overlay ==> w.film == w.screen
        && w.plan.cam.len() > 0
    &&& w.stage == Stage::Overlay ==> w.cam == Some(
        if w.plan.cam.len() == 1 {
            w.plan.cam[0]
        } else {
            joined_file(w.plan.dir, "c"@)
        },
    )
    &&& w.stage == Stage::Deliver || w.stage == Stage::Clear ==> w.film == w.screen || (w.film
        == overlay_file(w.plan.dir) && w.plan.cam.len() > 0)
    &&& w.stage == Stage::Screen ==> w.plan.screen.len() != 1
    &&& w.stage == Stage::Camera ==> w.plan.cam.len() > 1
    &&& w.failed is Some ==> w.stage == Stage::Over
}

/// However the tasks end, a film is made of all parts of the screen.
pub proof fn films_are_made_of_all_parts(plan: Plan, w: Work, report: Report)
    requires
        is_well_made(w),
    ensures
        is_well_made(begun(plan)),
        is_well_made(advanced(w, report)),
        advanced(w, report).plan == w.plan,
        begun(plan).plan == plan,
{
}

/// Where every task succeeds the film has the camera in it, if there is one, and reaches its
/// place; nothing is said to have failed.
pub proof fn films_have_the_camera_in_them(w: Work)
    requires
        is_well_made(w),
        w.stage != Stage::Over,
    ensures
        advanced(w, Report::Good).failed is None,
        w.stage == Stage::Screen && w.plan.cam.len() == 0 ==> advanced(w, Report::Good).stage
            == Stage::Deliver,
        w.stage == Stage::Screen && w.plan.cam.len() == 1 ==> advanced(w, Report::Good).stage
            == Stage::Overlay,
        w.stage == Stage::Screen && w.plan.cam.len() > 1 ==> advanced(w, Report::Good).stage
            == Stage::Camera,
        w.stage == Stage::Camera ==> advanced(w, Report::Good).stage == Stage::Overlay,
        w.stage == Stage::Overlay ==> advanced(w, Report::Good).stage == Stage::Deliver
            && advanced(w, Report::Good).film == overlay_file(w.plan.dir),
        w.stage == Stage::Deliver ==> advanced(w, Report::Good).stage == Stage::Clear,
        w.stage == Stage::Clear ==> advanced(w, Report::Good).stage == Stage::Over,
{
}

/// A device is named by what stands in quotes behind the last `] ` of its line.
pub proof fn devices_are_named_in_quotes(before: Seq<char>, name: Seq<char>, after: Seq<char>)
    requires
        forall|i: int| 0 <= i < name.len() ==> #[trigger] name[i] != '"',
        !text::occurs(" "@ + ("\""@ + name + "\""@ + after), "] "@),
    ensures
        device_name(before + "] "@ + ("\""@ + name + "\""@ + after)) == Some(name),
{
    let quote = "\""@;
    let mark = "] "@;
    reveal_strlit("\"");
    reveal_strlit("] ");
    reveal_strlit(" ");
    let rest = quote + name + quote + after;
    let line = before + mark + rest;
    let n = before.len() as int;
    let tail = " "@ + rest;
    assert(line.subrange(n, n + 2) =~= mark);
    assert forall|j: int| n < j implies !#[trigger] text::occurs_at(line, mark, j) by {
        if text::occurs_at(line, mark, j) {
            assert(tail.subrange(j - n - 1, j - n + 1) =~= line.subrange(j, j + 2));
            assert(text::occurs_at(tail, mark, j - n - 1));
        }
    }
    text::lemma_search_back_is(line, mark, line.len() as int, n);
    assert(line.skip(n + 2) =~= rest);
    assert(rest.subrange(0, 1) =~= quote);
    text::lemma_search_is(rest, quote, 0, 0);
    let end = name.len() as int + 1;
    assert(rest.subrange(end, end + 1) =~= quote);
    assert forall|j: int| 1 <= j < end implies !#[trigger] text::occurs_at(rest, quote, j) by {
        if text::occurs_at(rest, quote, j) {
            assert(rest.subrange(j, j + 1)[0] == '"');
            assert(rest[j] == name[j - 1]);
        }
    }
    text::lemma_search_is(rest, quote, 1, end);
    assert(rest.subrange(1, end) =~= name);
}

/// Each line that ends with `(video)` adds a camera, each that ends with `(audio)` a
/// microphone, behind those that were named before; other lines add nothing.
pub proof fn devices_are_listed_line_by_line(lines: Seq<Seq<char>>, line: Seq<char>)
    ensures
        device_name(line) matches Some(name) && closes(trimmed(line), "(video)"@) ==> devices_in(
            lines.push(line),
        ) == (devices_in(lines).0.push(device_name(line)->0), devices_in(lines).1),
        device_name(line) is Some && closes(trimmed(line), "(audio)"@) ==> devices_in(
            lines.push(line),
        ) == (devices_in(lines).0, devices_in(lines).1.push(device_name(line)->0)),
        device_name(line) is None || (!closes(trimmed(line), "(video)"@) && !closes(
            trimmed(line),
            "(audio)"@,
        )) ==> devices_in(lines.push(line)) == devices_in(lines),
{
    assert(lines.push(line).drop_last() =~= lines);
    reveal_strlit("(video)");
    reveal_strlit("(audio)");
    let t = trimmed(line);
    if closes(t, "(audio)"@) && closes(t, "(video)"@) {
        assert("(audio)"@[1] == "(video)"@[1]);
    }
}

/// What is recorded is the region that is asked for, with the microphone where there is one
/// and without sound where there is none, into the file that is asked for.
pub proof fn the_region_is_recorded(
    region: Rect,
    mic: Option<Seq<char>>,
    fps: nat,
    out: Seq<char>,
)
    ensures
        ({
            let a = screen_arguments(region, mic, fps, out);
            &&& a[4] == "-f"@ && a[5] == "gdigrab"@
            &&& a[6] == "-framerate"@ && a[7] == decimal(fps)
            &&& a[8] == "-offset_x"@ && a[9] == signed(region.x as int)
            &&& a[10] == "-offset_y"@ && a[11] == signed(region.y as int)
            &&& a[12] == "-video_size"@ && a[13] == signed(region.w as int) + "x"@ + signed(
                region.h as int,
            )
            &&& a[14] == "-i"@ && a[15] == "desktop"@
            &&& a.last() == out
            &&& mic matches Some(m) ==> a.len() == 41 && a[16] == "-f"@ && a[17] == "dshow"@
                && a[18] == "-i"@ && a[19] == "audio="@ + m
            &&& mic is None ==> a.len() == 29
        }),
{
}

/// The camera is laid over the screen, not the other way round, and the sound is that of
/// the screen.
pub proof fn the_camera_is_laid_over_the_screen(
    screen: Seq<char>,
    cam: Seq<char>,
    out: Seq<char>,
    nvenc: bool,
)
    ensures
        ({
            let a = overlay_arguments(screen, cam, out, nvenc);
            &&& a[4] == "-i"@ && a[5] == screen
            &&& a[6] == "-i"@ && a[7] == cam
            &&& a[8] == "-filter_complex"@ && a[9] == overlay_filter()
            &&& a[12] == "-map"@ && a[13] == "0:a?"@
            &&& a.last() == out
            &&& a[14] == "-c:v"@ && a[15] == if nvenc {
                "h264_nvenc"@
            } else {
                "libx264"@
            }
        }),
{
}

/// Each part of a recording goes to the file of its own number, which is one more than the
/// number of parts that are ended.
pub proof fn parts_go_to_their_own_files(s: Segment, t: Take, fps: nat)
    requires
        is_segment(s, t, fps),
    ensures
        views(s.screen@).last() == joined_path(t.dir, "s"@ + decimal(t.sealed + 1) + ".mp4"@),
        t.cam is Some ==> s.camera is Some && views((s.camera->0).0@).last() == joined_path(
            t.dir,
            "c"@ + decimal(t.sealed + 1) + ".mp4"@,
        ),
        t.cam is None ==> s.camera is None,
{
}

} // verus!
