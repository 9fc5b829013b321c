//! Showing a picture.

use vstd::prelude::*;
use vstd::string::*;

use crate::chars;
use crate::chars::ascii_lower;
use crate::path;
use crate::path::{extension_of, name_of};
use crate::text;
use crate::text::optional;

verus! {

/// The formats that can be shown.
#[derive(Clone, Copy, PartialEq, Eq, Debug, Structural)]
pub enum ImageFormat {
    Png,
    Jpeg,
    Webp,
    Gif,
    Bmp,
    Svg,
}

/// The format that an extension stands for, in lower case.
pub open spec fn format_of(ext: Seq<char>) -> Option<ImageFormat> {
    if ext == "png"@ {
        Some(ImageFormat::Png)
    } else if ext == "jpg"@ || ext == "jpeg"@ {
        Some(ImageFormat::Jpeg)
    } else if ext == "webp"@ {
        Some(ImageFormat::Webp)
    } else if ext == "gif"@ {
        Some(ImageFormat::Gif)
    } else if ext == "bmp"@ {
        Some(ImageFormat::Bmp)
    } else if ext == "svg"@ {
        Some(ImageFormat::Svg)
    } else {
        None
    }
}

/// The format of a file, by its extension in whichever case.
pub open spec fn path_format(p: Seq<char>) -> Option<ImageFormat> {
    match extension_of(p) {
        Some(ext) => format_of(ext.map_values(|c: char| ascii_lower(c))),
        None => None,
    }
}

/// The format of a file.
pub fn image_format_for(p: &str) -> (r: Option<ImageFormat>)
    ensures
        r == path_format(p@),
{
    let ext = match path::extension(p) {
        Some(e) => chars::lower_ascii(e.as_str()),
        None => {
            return None;
        },
    };
    let e = ext.as_str();
    if text::same(e, "png") {
        Some(ImageFormat::Png)
    } else if text::same(e, "jpg") || text::same(e, "jpeg") {
        Some(ImageFormat::Jpeg)
    } else if text::same(e, "webp") {
        Some(ImageFormat::Webp)
    } else if text::same(e, "gif") {
        Some(ImageFormat::Gif)
    } else if text::same(e, "bmp") {
        Some(ImageFormat::Bmp)
    } else if text::same(e, "svg") {
        Some(ImageFormat::Svg)
    } else {
        None
    }
}

/// Whether a file is a picture.
pub fn is_image_path(p: &str) -> (r: bool)
    ensures
        r == path_format(p@) is Some,
{
    image_format_for(p).is_some()
}

/// A picture that is shown.
pub struct ImageView {
    pub path: String,
    /// Whether it was read.
    pub shown: bool,
    pub error: Option<String>,
    pub loading: bool,
}

impl ImageView {
    /// A picture that is to be read.
    pub fn new(path: String) -> (r: Self)
        ensures
            r.path@ == path@,
            !r.shown,
            r.error is None,
            r.loading,
    {
        ImageView { path, shown: false, error: None, loading: true }
    }

    /// The format in which the file is to be read, or why it is not.
    pub fn format(&self) -> (r: Result<ImageFormat, String>)
        ensures
            match r {
                Ok(f) => path_format(self.path@) == Some(f),
                Err(e) => path_format(self.path@) is None && e@ == "不支持的图片格式"@,
            },
    {
        match image_format_for(self.path.as_str()) {
            Some(f) => Ok(f),
            None => Err("不支持的图片格式".to_owned()),
        }
    }

    /// Takes over how the reading went: no error where it succeeded.
    pub fn loaded(&mut self, error: Option<String>)
        ensures
            final(self).path@ == old(self).path@,
            !final(self).loading,
            final(self).shown == (error is None || old(self).shown),
            optional(final(self).error) == optional(error),
    {
        if error.is_none() {
            self.shown = true;
        }
        self.error = error;
        self.loading = false;
    }

    /// What is said in place of the picture, where it is not shown.
    pub fn note(&self) -> (r: Option<String>)
        ensures
            optional(r) == if self.shown {
                None
            } else if self.loading {
                Some("加载中…"@)
            } else {
                match self.error {
                    Some(e) => Some(e@),
                    None => Some(
                        "无法显示图片："@ + match name_of(self.path@) {
                            Some(name) => name,
                            None => Seq::empty(),
                        },
                    ),
                }
            },
    {
        if self.shown {
            return None;
        }
        if self.loading {
            return Some("加载中…".to_owned());
        }
        match &self.error {
            Some(e) => Some(e.clone()),
            None => {
                let mut out = "无法显示图片：".to_owned();
                match path::file_name(self.path.as_str()) {
                    Some(name) => {
                        out.append(name.as_str());
                    },
                    None => {
                        assert(out@ =~= "无法显示图片："@ + Seq::<char>::empty());
                    },
                }
                Some(out)
            },
        }
    }
}

/// What is said where a picture cannot be read.
pub fn read_error(why: &str) -> (r: String)
    ensures
        r@ == "无法读取图片："@ + why@,
{
    text::both("无法读取图片：", why)
}

/// These extensions stand for pictures, each for its own format, and no others do.
pub proof fn extensions_stand_for_formats(ext: Seq<char>)
    ensures
        format_of("png"@) == Some(ImageFormat::Png),
        format_of("jpg"@) == Some(ImageFormat::Jpeg),
        format_of("jpeg"@) == Some(ImageFormat::Jpeg),
        format_of("webp"@) == Some(ImageFormat::Webp),
        format_of("gif"@) == Some(ImageFormat::Gif),
        format_of("bmp"@) == Some(ImageFormat::Bmp),
        format_of("svg"@) == Some(ImageFormat::Svg),
        format_of(ext) is Some ==> ext == "png"@ || ext == "jpg"@ || ext == "jpeg"@ || ext
            == "webp"@ || ext == "gif"@ || ext == "bmp"@ || ext == "svg"@,
{
    reveal_strlit("png");
    reveal_strlit("jpg");
    reveal_strlit("jpeg");
    reveal_strlit("webp");
    reveal_strlit("gif");
    reveal_strlit("bmp");
    reveal_strlit("svg");
    assert("png"@[0] == 'p' && "png"@.len() == 3);
    assert("jpg"@[0] == 'j' && "jpg"@.len() == 3);
    assert("jpeg"@[0] == 'j' && "jpeg"@.len() == 4);
    assert("webp"@[0] == 'w' && "webp"@.len() == 4);
    assert("gif"@[0] == 'g' && "gif"@.len() == 3);
    assert("bmp"@[0] == 'b' && "bmp"@.len() == 3);
    assert("svg"@[0] == 's' && "svg"@.len() == 3);
}

} // verus!
