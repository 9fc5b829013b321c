//! Settings that last.

use typst_live::settings::{self, parse_window, Settings, HEADER, MAX_RECENT_DIRS};

fn sample() -> Settings {
    Settings {
        window: Some((100, 60, 1320, 880)),
        file: Some("/tmp/docs/报告.typ".to_string()),
        zoom: Some("1.25".to_owned()),
        theme: Some("Default Dark".to_owned()),
        preview_bg: Some("grid".to_owned()),
        follow_cursor: Some(true),
        folding: Some(false),
        show_metrics: Some(true),
        autosave: Some(false),
        show_tree: Some(false),
        show_editor: Some(true),
        show_preview: Some(true),
        show_toolbar: Some(false),
        show_statusbar: Some(true),
        record_mic: Some(false),
        record_cam: Some(true),
        recent_dirs: vec![
            "D:/工作/钻头型号排名".to_string(),
            "C:/Users/admin/文档".to_string(),
        ],
        ai_base_url: Some("http://127.0.0.1:11434/v1/chat/completions".to_owned()),
        ai_model: Some("qwen3".to_owned()),
        ai_api_key: Some("sk-本地测试".to_owned()),
    }
}

#[test]
fn render_and_parse_round_trip() {
    let text = sample().render();

    assert_eq!(Settings::parse(&text), sample());
}

#[test]
fn an_empty_file_gives_defaults() {
    assert_eq!(Settings::parse(""), Settings::default());
    assert_eq!(
        Settings::parse("# 只有注释\n\n"),
        Settings::default(),
        "注释与空行不该产生任何项"
    );
}

#[test]
fn broken_lines_are_skipped_not_fatal() {
    let settings = Settings::parse(
        "window=不知道什么东西\n\
         zoom=abc\n\
         未知的键=1\n\
         这一行没有等号\n\
         dark=也许\n\
         file=\n\
         zoom=2\n",
    );

    assert_eq!(settings.window, None, "解析不了就别当设置");
    assert_eq!(settings.file, None, "空路径等于没设");
    assert_eq!(settings.theme, None, "`dark` 这种旧键认不出就跳过");
    assert_eq!(settings.zoom, Some("2".to_owned()), "后面那行好的该生效");
}

#[test]
fn a_window_without_area_is_rejected() {
    assert_eq!(parse_window("0,0,0,0"), None);
    assert_eq!(parse_window("0,0,-100,600"), None);
    assert_eq!(parse_window("1,2,3"), None, "少一项也不行");
    assert_eq!(parse_window("-50,-20,900,600"), Some((-50, -20, 900, 600)));
}

#[test]
fn a_path_with_spaces_and_equals_survives() {
    let settings = Settings::parse("file=C:\\my docs\\a=b.typ\n");

    assert_eq!(settings.file, Some("C:\\my docs\\a=b.typ".to_string()));
}

#[test]
fn recent_dirs_are_stored_one_per_line_and_capped() {
    let many: Vec<String> = (0..MAX_RECENT_DIRS + 5)
        .map(|i| format!("C:/dir{i}"))
        .collect();
    let text = Settings {
        recent_dirs: many,
        ..Settings::default()
    }
    .render();

    assert_eq!(text.matches("recent_dir=").count(), MAX_RECENT_DIRS);

    let back = Settings::parse(&text);
    assert_eq!(back.recent_dirs.len(), MAX_RECENT_DIRS);
    assert_eq!(
        back.recent_dirs[0],
        "C:/dir0".to_string(),
        "顺序要保住（最近的在最前）"
    );
}

#[test]
fn a_recent_dir_with_awkward_characters_survives() {
    let dir = r"C:\Users\admin\我的 文档\a=b".to_string();
    let text = Settings {
        recent_dirs: vec![dir.clone()],
        ..Settings::default()
    }
    .render();

    assert_eq!(Settings::parse(&text).recent_dirs, vec![dir]);
}

#[test]
fn absent_items_produce_no_lines() {
    let text = Settings::default().render();

    for key in [
        "window=",
        "file=",
        "zoom=",
        "theme=",
        "preview_bg=",
        "follow_cursor=",
        "folding=",
        "show_metrics=",
        "autosave=",
        "recent_dir=",
        "ai_base_url=",
        "ai_model=",
        "ai_api_key=",
    ] {
        assert!(!text.contains(key), "空的设置不该写 `{key}`：{text:?}");
    }
}

#[test]
fn boolean_items_round_trip_and_tolerate_garbage() {
    let text = Settings {
        follow_cursor: Some(true),
        folding: Some(false),
        autosave: Some(false),
        ..Settings::default()
    }
    .render();

    assert!(text.contains("follow_cursor=true"), "{text:?}");
    assert!(text.contains("folding=false"), "{text:?}");
    assert!(text.contains("autosave=false"), "{text:?}");

    let parsed = Settings::parse("follow_cursor=true\nfolding=false\nautosave=false\n");
    assert_eq!(parsed.follow_cursor, Some(true));
    assert_eq!(parsed.folding, Some(false));
    assert_eq!(parsed.autosave, Some(false));

    let broken = Settings::parse("follow_cursor=也许\nfolding=\nautosave=\n");
    assert_eq!(broken.follow_cursor, None, "解析不了就别当设置");
    assert_eq!(broken.folding, None);
    assert_eq!(broken.autosave, None);
}

#[test]
fn autosave_absent_means_none_not_false() {
    assert_eq!(Settings::parse("").autosave, None);
}


#[test]
fn settings_are_written_in_a_fixed_order() {
    let text = Settings {
        window: Some((-5, 0, 800, 600)),
        zoom: Some("0.5".to_owned()),
        show_tree: Some(true),
        ai_model: Some("m".to_owned()),
        ..Settings::default()
    }
    .render();
    assert_eq!(
        text,
        format!("{HEADER}\nwindow=-5,0,800,600\nzoom=0.5\nshow_tree=true\nai_model=m\n")
    );
}

#[test]
fn a_value_that_cannot_be_read_leaves_an_earlier_one() {
    assert_eq!(Settings::parse("window=1,2,3,4\nwindow=bad\n").window, Some((1, 2, 3, 4)));
    assert_eq!(Settings::parse("zoom=2\nzoom=abc\n").zoom, Some("2".to_owned()));
    assert_eq!(Settings::parse("folding=false\nfolding=maybe\n").folding, Some(false));
}

#[test]
fn a_window_is_four_integers_and_nothing_else() {
    assert_eq!(parse_window("1,x,2,300,400"), None);
    assert_eq!(parse_window("1,2,300,400,5"), None);
    assert_eq!(parse_window("1,2,300,x"), None);
    assert_eq!(parse_window(" 1, 2 ,300,400 "), Some((1, 2, 300, 400)));
}

#[test]
fn a_zoom_is_a_number_with_a_finite_value() {
    let good = [
        "2", "+1.5", "-0", ".5", "5.", "1e2", "1E-3", "0.00001", "000", "1e-999999999999999999999999999999999999",
        "340282356779733661637539395458142568447", "3.4028235e38", "0e99999999999999999999999999999999999999",
    ];
    let bad = [
        "", ".", "e5", "1e", "1e+", "--1", "1.2.3", "abc", "inf", "NaN", "1e39", "1 2", "0x10",
        "340282356779733661637539395458142568448", "1e99999999999999999999999999999999999999",
    ];
    for text in good {
        assert!(text.parse::<f32>().unwrap().is_finite(), "{text}");
        let line = format!("zoom={text}\n");
        assert_eq!(Settings::parse(&line).zoom, Some(text.to_string()), "{text}");
    }
    for text in bad {
        assert!(!text.parse::<f32>().is_ok_and(|z| z.is_finite()), "{text}");
        assert_eq!(Settings::parse(&format!("zoom={text}\n")).zoom, None, "{text}");
    }
}

#[test]
fn an_empty_value_leaves_an_earlier_text() {
    let s = Settings::parse("theme=Dark\ntheme=\n");
    assert_eq!(s.theme, Some("Dark".to_owned()));
}

#[test]
fn same_settings_are_recognised() {
    assert!(sample().same(&sample()));
    assert!(!sample().same(&Settings::default()));
    assert!(!sample().same(&Settings { zoom: None, ..sample() }));
}

#[test]
fn settings_have_a_place_of_their_own() {
    let at = settings::path(Some("C:\\Users\\a\\AppData\\Roaming"), Some("/home/a"));
    assert_eq!(at, "C:\\Users\\a\\AppData\\Roaming/typst-live/settings.conf");
    assert_eq!(settings::path(None, Some("/home/a")), "/home/a/.config/typst-live/settings.conf");
    assert_eq!(settings::path(None, None), "settings.conf");
}
