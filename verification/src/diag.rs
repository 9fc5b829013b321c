//! What is written down when something goes wrong.

use vstd::prelude::*;
use vstd::string::*;

use crate::decimal;
use crate::decimal::decimal;
use crate::text;
use crate::text::said;

verus! {

/// The file for messages, beside the settings.
pub const LOG_NAME: &'static str = "typst-live.log";

/// What a panic said, or that it said nothing that can be read.
pub open spec fn payload(message: Option<Seq<char>>) -> Seq<char> {
    match message {
        Some(m) => m,
        None => "（非字符串载荷）"@,
    }
}

/// What a panic said.
pub fn payload_text(message: Option<&str>) -> (r: String)
    ensures
        r@ == payload(said(message)),
{
    match message {
        Some(m) => m.to_owned(),
        None => "（非字符串载荷）".to_owned(),
    }
}

/// Where a panic happened.
pub struct Site {
    pub file: String,
    pub line: u32,
    pub column: u32,
}

/// Where a panic happened, as text.
pub open spec fn site_text(site: Option<Site>) -> Seq<char> {
    match site {
        Some(s) => s.file@ + ":"@ + decimal(s.line as nat) + ":"@ + decimal(s.column as nat),
        None => "位置未知"@,
    }
}

/// The line that is written down for a panic; none for one that is expected.
pub fn panic_line(expected: bool, site: &Option<Site>, message: Option<&str>) -> (r: Option<String>)
    ensures
        r is None == expected,
        r matches Some(line) ==> line@ == "[panic] "@ + site_text(*site) + " —— "@ + payload(
            said(message),
        ),
{
    if expected {
        return None;
    }
    let place = match site {
        Some(s) => {
            let line = decimal::show(s.line as u64);
            let column = decimal::show(s.column as u64);
            let mut t = text::three(s.file.as_str(), ":", line.as_str());
            t.append(":");
            t.append(column.as_str());
            t
        },
        None => "位置未知".to_owned(),
    };
    let said_text = payload_text(message);
    let mut out = text::three("[panic] ", place.as_str(), " —— ");
    out.append(said_text.as_str());
    Some(out)
}

} // verus!
