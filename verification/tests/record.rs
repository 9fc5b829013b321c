//! Recording the screen.

use typst_live::record::{
    camera_args, capture_region, concat_args, concat_list_text, crop_region, device_for,
    done_message, elapsed_label, ffmpeg_error, ffmpeg_failure, list_args, list_error, move_error,
    nvenc_args, out_dir, overlay_args, parse_dshow_devices, pause_message, screen_args,
    stamp_text, start_error, started_message, temp_dir_error, usable, Devices, Done, Finalize,
    Finishing, Recorder, Rect, Report, Stage, State, Task, MIN_SIDE,
};

fn r(x: i32, y: i32, w: i32, h: i32) -> Rect {
    Rect { x, y, w, h }
}

#[test]
fn crop_region_inside_monitor_is_unchanged() {
    let got = crop_region(r(100, 80, 800, 600), r(0, 0, 2560, 1600), MIN_SIDE).unwrap();
    assert_eq!(got, r(100, 80, 800, 600));
}

#[test]
fn crop_region_clips_to_monitor() {
    let got = crop_region(r(-40, -30, 900, 700), r(0, 0, 800, 600), MIN_SIDE).unwrap();
    assert_eq!(got, r(0, 0, 800, 600));
}

#[test]
fn crop_region_clips_bottom_right() {
    let got = crop_region(r(235, 202, 2122, 1406), r(0, 0, 2560, 1600), MIN_SIDE).unwrap();
    assert_eq!(got, r(235, 202, 2122, 1398));
}

#[test]
fn crop_region_makes_sides_even() {
    let got = crop_region(r(11, 13, 801, 601), r(0, 0, 2560, 1600), MIN_SIDE).unwrap();
    assert_eq!((got.w % 2, got.h % 2), (0, 0));
    assert!(got.w <= 801 && got.h <= 601);
}

#[test]
fn crop_region_rejects_too_small() {
    assert!(crop_region(r(0, 0, 40, 40), r(0, 0, 2560, 1600), MIN_SIDE).is_none());
    assert!(crop_region(r(0, 0, 500, 500), r(490, 490, 2560, 1600), MIN_SIDE).is_none());
}

#[test]
fn crop_region_off_monitor_is_none() {
    assert!(crop_region(r(5000, 5000, 800, 600), r(0, 0, 2560, 1600), MIN_SIDE).is_none());
}

#[test]
fn parse_dshow_devices_reads_real_ffmpeg_output() {
    let real = "[in#0 @ 000001a3c36223c0] \"Integrated Webcam\" (video)\n\
                [in#0 @ 000001a3c36223c0]   Alternative name \"@device_pnp_\\\\?\\usb#vid_0c45&pid_6a27\"\n\
                [in#0 @ 000001a3c36223c0] \"麦克风 (Realtek(R) Audio)\" (audio)\n\
                [in#0 @ 000001a3c36223c0]   Alternative name \"@device_cm_{33D9A762}\"\n";
    let d = parse_dshow_devices(real);
    assert_eq!(d.video, vec!["Integrated Webcam".to_string()]);
    assert_eq!(d.audio, vec!["麦克风 (Realtek(R) Audio)".to_string()]);
}

#[test]
fn parse_dshow_devices_tolerates_junk() {
    assert_eq!(parse_dshow_devices(""), Devices::default());
    assert_eq!(
        parse_dshow_devices("dummy: Immediate exit requested"),
        Devices::default()
    );
    assert_eq!(parse_dshow_devices("[in#0] (audio)"), Devices::default());
}

#[test]
fn screen_args_region_and_audio() {
    let a = screen_args(
        r(235, 202, 2122, 1398),
        Some("麦克风 (Realtek(R) Audio)"),
        30,
        "out.mp4",
    );
    let s = a.join(" ");
    assert!(s.contains("-f gdigrab"));
    assert!(s.contains("-offset_x 235"));
    assert!(s.contains("-offset_y 202"));
    assert!(s.contains("-video_size 2122x1398"));
    assert!(s.contains("-i desktop"));
    assert!(s.contains("-i audio=麦克风 (Realtek(R) Audio)"));
    assert!(s.contains("-c:v libx264"));
    assert!(s.contains("-map 0:v"));
    assert!(s.ends_with("out.mp4"));
}

#[test]
fn screen_args_without_mic_has_no_audio_stream() {
    let a = screen_args(r(0, 0, 800, 600), None, 30, "out.mp4");
    let s = a.join(" ");
    assert!(!s.contains("-c:a"));
    assert!(!s.contains("-map 1:a"));
    assert!(!s.contains("dshow"));
}

#[test]
fn camera_args_asks_for_a_small_format() {
    let a = camera_args("Integrated Webcam", "c1.mp4");
    let s = a.join(" ");
    assert!(s.contains("-video_size 640x480"));
    assert!(s.contains("-i video=Integrated Webcam"));
    assert!(!s.contains("-f dshow -i audio"));
}

#[test]
fn concat_list_uses_forward_slashes_style_paths_verbatim() {
    let text = concat_list_text(&[r"D:\录屏\s1.mp4".to_string(), "s2.mp4".to_string()]);
    assert_eq!(text, "file 'D:\\录屏\\s1.mp4'\nfile 's2.mp4'\n");
}

#[test]
fn overlay_args_puts_pip_bottom_right() {
    let a = overlay_args(
        "s.mp4",
        "c.mp4",
        "o.mp4",
        true,
    );
    let s = a.join(" ");
    assert!(s.contains("scale=320:-2"));
    assert!(s.contains("overlay=W-w-16:H-h-16"));
    assert!(s.contains("eof_action=pass"));
    assert!(s.contains("-c:v h264_nvenc"));
    assert!(s.contains("-map 0:a?"));
}

#[test]
fn overlay_args_falls_back_to_x264() {
    let a = overlay_args(
        "s.mp4",
        "c.mp4",
        "o.mp4",
        false,
    );
    assert!(a.join(" ").contains("-c:v libx264"));
}

#[test]
fn elapsed_label_formats() {
    assert_eq!(elapsed_label(0), "00:00");
    assert_eq!(elapsed_label(9), "00:09");
    assert_eq!(elapsed_label(83), "01:23");
    assert_eq!(elapsed_label(3600), "1:00:00");
    assert_eq!(elapsed_label(3723), "1:02:03");
}

#[test]
fn usable_needs_a_non_trivial_file() {
    assert!(!usable(Some(1)));
    assert!(!usable(None));
    assert!(usable(Some(8192)));
}

fn recorder(cam: Option<&str>) -> Recorder {
    Recorder::start(
        "out",
        r(0, 0, 800, 600),
        Some("mic".to_string()),
        cam.map(|s| s.to_string()),
        "20240102-030405",
        true,
    )
    .ok()
    .unwrap()
}

#[test]
fn a_recording_needs_the_program() {
    let got = Recorder::start("out", r(0, 0, 800, 600), None, None, "t", false);
    match got {
        Ok(_) => panic!("不该开始"),
        Err(why) => assert_eq!(why, "PATH 上找不到 ffmpeg —— 录屏要用它，先装一个再点"),
    }
}

#[test]
fn parts_are_counted_and_time_adds_up() {
    let mut rec = recorder(Some("cam"));
    let first = rec.segment(30);
    assert!(first.screen.last().unwrap().ends_with("s1.mp4"), "{:?}", first.screen);
    assert!(first.camera.unwrap().0.last().unwrap().ends_with("c1.mp4"));
    rec.open(None);
    assert_eq!(rec.state(), State::Recording);
    assert_eq!(rec.tick(1_000, &vec![false, false]), None);
    assert_eq!(rec.elapsed(), 1_000);
    assert!(rec.pause());
    assert_eq!(rec.state(), State::Paused);
    assert_eq!(rec.tick(5_000, &vec![true]), None);
    assert_eq!(rec.elapsed(), 1_000, "暂停时不走表");
    let next = rec.resume(30).unwrap();
    assert!(next.screen.last().unwrap().ends_with("s2.mp4"));
    rec.open(None);
    assert_eq!(rec.begin_stop(500).unwrap(), true);
    let plan = rec.stop(&vec![true, true], &vec![true, false], true).ok().unwrap();
    assert_eq!(plan.screen.len(), 2);
    assert!(plan.cam.is_empty(), "段数对不上就不做画中画");
    assert_eq!(rec.elapsed(), 1_500);
}

#[test]
fn a_pause_before_the_end_does_not_count() {
    let mut rec = recorder(None);
    rec.open(None);
    assert_eq!(rec.tick(1_000, &vec![false]), None);
    assert!(rec.pause());
    assert_eq!(rec.begin_stop(700).unwrap(), false);
    let plan = rec.stop(&vec![true], &vec![false], false).ok().unwrap();
    assert_eq!(plan.screen.len(), 1);
    assert_eq!(rec.elapsed(), 1_000);
}

#[test]
fn a_camera_that_does_not_start_is_told_and_does_not_stop_the_film() {
    let mut rec = recorder(Some("cam"));
    rec.open(Some("忙"));
    assert_eq!(rec.state(), State::Recording);
    assert_eq!(rec.note, Some("摄像头起不来（忙），这次只录画面".to_string()));
}

#[test]
fn a_part_that_was_interrupted_does_not_count() {
    let mut rec = recorder(None);
    rec.open(None);
    assert!(rec.tick(10, &vec![true]).is_some());
    assert_eq!(rec.state(), State::Paused);
    assert_eq!(rec.begin_stop(0), Err("这一段什么都没录到".to_string()));
    let mut rec = recorder(None);
    rec.open(None);
    assert!(rec.pause());
    rec.open(None);
    assert!(rec.tick(10, &vec![true]).is_some());
    assert_eq!(rec.begin_stop(0), Ok(false));
    assert_eq!(rec.sealed, 1);
}

#[test]
fn stopping_twice_or_before_anything_is_refused() {
    let mut idle = recorder(None);
    idle.state = State::Idle;
    assert_eq!(idle.begin_stop(0), Err("这一段什么都没录到".to_string()));
    let mut rec = recorder(None);
    rec.open(None);
    assert!(rec.begin_stop(0).is_ok());
    assert_eq!(rec.begin_stop(0), Err("收尾还没跑完".to_string()));
}

fn plan(cam: Vec<String>) -> Finalize {
    Finalize {
        dir: "d".to_string(),
        out: "o.mp4".to_string(),
        screen: vec!["d/s1.mp4".to_string(), "d/s2.mp4".to_string()],
        cam,
        nvenc: false,
    }
}

#[test]
fn a_film_is_joined_overlaid_delivered_and_cleared() {
    let mut work = Finishing::begin(plan(vec!["d/c1.mp4".to_string()]));
    let mut seen = Vec::new();
    loop {
        match work.task() {
            Task::Join { text, .. } => seen.push(text),
            Task::Overlay { args, .. } => seen.push(args.last().unwrap().clone()),
            Task::Deliver { to, .. } => seen.push(to),
            Task::Clear { dir } => seen.push(dir),
            Task::Over => break,
        }
        work.feed(&Report::Good);
    }
    assert_eq!(work.stage, Stage::Over);
    assert_eq!(seen[0], "file 'd/s1.mp4'\nfile 'd/s2.mp4'\n");
    assert_eq!(seen[1], "d/pip.mp4", "只有一段就不用拼");
    assert_eq!(seen[2], "o.mp4");
    assert_eq!(seen[3], "d");
    assert_eq!(seen.len(), 4);
    assert_eq!(work.outcome(), Ok(Done { path: "o.mp4".to_string(), notes: vec![] }));
}

#[test]
fn trouble_with_the_camera_costs_only_the_camera() {
    let mut work = Finishing::begin(plan(vec!["d/c1.mp4".to_string()]));
    work.feed(&Report::Good);
    assert_eq!(work.stage, Stage::Overlay);
    work.feed(&Report::Failed("坏了".to_string()));
    assert_eq!(work.stage, Stage::Deliver);
    assert_eq!(work.notes.len(), 1);
    work.feed(&Report::Good);
    work.feed(&Report::Good);
    assert!(work.outcome().is_ok());
}

#[test]
fn trouble_with_the_screen_costs_the_film() {
    let mut work = Finishing::begin(plan(vec![]));
    work.feed(&Report::Failed("坏了".to_string()));
    while work.stage != Stage::Over {
        work.feed(&Report::Good);
    }
    assert!(work.outcome().is_err());
}

#[test]
fn arguments_for_joining_and_probing() {
    assert_eq!(
        concat_args("l.txt", "o.mp4").join(" "),
        "-y -hide_banner -loglevel warning -f concat -safe 0 -i l.txt -c copy -movflags +faststart o.mp4"
    );
    assert!(list_args().join(" ").contains("-list_devices true -f dshow -i dummy"));
    assert!(nvenc_args().join(" ").contains("-c:v h264_nvenc -f null -"));
}

#[test]
fn a_time_stamp_is_padded() {
    assert_eq!(stamp_text(2024, 1, 2, 3, 4, 5), "20240102-030405");
}

#[test]
fn the_region_is_refused_with_a_reason() {
    let screen = r(0, 0, 2560, 1600);
    assert!(capture_region(false, None, None).is_err());
    assert!(capture_region(true, None, None).is_err());
    assert!(capture_region(true, Some((screen, false)), None).is_err());
    assert_eq!(
        capture_region(true, Some((screen, true)), Some(r(0, 0, 40, 40))),
        Err("窗口太小 / 露出屏幕太少（40x40），至少 64x64 才录".to_string())
    );
    assert_eq!(
        capture_region(true, Some((screen, true)), Some(r(10, 10, 640, 480))),
        Ok(r(10, 10, 640, 480))
    );
}

#[test]
fn messages_of_a_recording() {
    assert_eq!(started_message(None, true, true, true), "录制中");
    assert_eq!(
        started_message(None, false, true, true),
        "录制中（没找到麦克风设备 → 只有画面）"
    );
    assert_eq!(started_message(Some("换了地方".to_string()), false, true, true), "换了地方");
    assert_eq!(pause_message(State::Paused, None), "已暂停（继续时接着录，拼接处不留洞）");
    assert_eq!(pause_message(State::Recording, Some("x")), "暂停 / 继续失败：x");
    let done = Done { path: "a.mp4".to_string(), notes: vec!["无声".to_string()] };
    assert_eq!(done_message(&Ok(done)), "已保存 a.mp4（无声）");
    assert_eq!(done_message(&Err("坏".to_string())), "收尾失败：坏");
    assert_eq!(start_error("x"), "录不了：x");
    assert_eq!(list_error("x"), "写不了拼接清单：x");
    assert_eq!(ffmpeg_error("x"), "起不了 ffmpeg：x");
    assert_eq!(move_error("a", "b"), "成品挪不过去：a / 复制也失败：b");
    assert_eq!(temp_dir_error("d", "x"), "建不了临时目录「d」：x");
    assert!(ffmpeg_failure(Some(1), "a\nb\n").contains("b"));
}

#[test]
fn films_go_where_they_can() {
    assert_eq!(out_dir(true, None, "/tmp"), (r"D:\录屏".to_string(), None));
    let (dir, note) = out_dir(false, Some(r"C:\Users\me"), "/tmp");
    assert!(dir.starts_with(r"C:\Users\me"), "{dir}");
    assert!(note.is_some());
}

#[test]
fn a_device_is_taken_only_when_wanted() {
    let mic = Some("麦".to_string());
    assert_eq!(device_for(true, &mic), mic);
    assert_eq!(device_for(false, &mic), None);
}
