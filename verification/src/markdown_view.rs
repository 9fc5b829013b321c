//! Showing a Markdown file.

use vstd::prelude::*;
use vstd::string::*;

use crate::text;
use crate::text::trimmed;

verus! {

/// A Markdown file that is shown.
pub struct MarkdownView {
    pub source: String,
    /// The file that it came from.
    pub path: Option<String>,
}

impl MarkdownView {
    /// Nothing is shown.
    pub fn new() -> (r: Self)
        ensures
            r.source@ == Seq::<char>::empty(),
            r.path is None,
    {
        MarkdownView { source: String::new(), path: None }
    }

    /// Shows a file.
    pub fn set_source(&mut self, path: String, source: String)
        ensures
            final(self).source@ == source@,
            final(self).path matches Some(p) && p@ == path@,
    {
        self.path = Some(path);
        self.source = source;
    }

    /// Whether there is nothing to show.
    pub fn is_empty(&self) -> (r: bool)
        ensures
            r == (trimmed(self.source@).len() == 0),
    {
        text::is_blank(self.source.as_str())
    }
}

} // verus!
