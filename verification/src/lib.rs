//! Logic of a live typesetting editor.

pub mod ai;
pub mod ai_edit;
pub mod ai_scope;
pub mod autosave;
pub mod chars;
pub mod completion;
pub mod decimal;
pub mod diag;
pub mod diagnostics;
pub mod diff;
pub mod disk_watch;
pub mod document;
pub mod editor_marks;
pub mod finder;
pub mod frame;
pub mod image_view;
pub mod json;
pub mod labels;
pub mod markdown_view;
pub mod markup;
pub mod menu;
pub mod number;
pub mod offset;
pub mod options;
pub mod order;
pub mod overlays;
pub mod panes;
pub mod path;
pub mod preview;
pub mod record;
pub mod safe_update;
pub mod settings;
pub mod startup;
pub mod statusbar;
pub mod term_colors;
pub mod terminal;
pub mod terminal_view;
pub mod text;
pub mod tree;
pub mod workspace;
