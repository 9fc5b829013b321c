//! Showing images.

use typst_live::image_view::{image_format_for, is_image_path, read_error, ImageFormat, ImageView};

#[test]
fn the_extension_decides_the_format() {
    let cases = [
        ("a.png", Some(ImageFormat::Png)),
        ("a.PNG", Some(ImageFormat::Png)),
        ("a.jpeg", Some(ImageFormat::Jpeg)),
        ("a.jpg", Some(ImageFormat::Jpeg)),
        ("a.svg", Some(ImageFormat::Svg)),
        ("a.bmp", Some(ImageFormat::Bmp)),
        ("a.typ", None),
        ("没有后缀", None),
    ];

    for (name, want) in cases {
        assert_eq!(image_format_for(name), want, "{name}");
    }
}

#[test]
fn is_image_path_matches_the_format_table() {
    assert!(is_image_path("图/照片.webp"));
    assert!(!is_image_path("doc.typ"));
}

#[test]
fn a_picture_is_shown_once_it_is_read() {
    let mut view = ImageView::new("图/a.png".to_string());
    assert_eq!(view.note(), Some("加载中…".to_string()));
    assert_eq!(view.format(), Ok(ImageFormat::Png));
    view.loaded(None);
    assert_eq!(view.note(), None);
}

#[test]
fn a_picture_that_cannot_be_read_says_why() {
    let mut view = ImageView::new("a.xyz".to_string());
    assert_eq!(view.format(), Err("不支持的图片格式".to_string()));
    view.loaded(Some(read_error("没有")));
    assert_eq!(view.note(), Some("无法读取图片：没有".to_string()));
}
