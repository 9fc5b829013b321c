# typst-live

A live editor for Typst: the text on the left, the pages on the right, and around them a file
tree, a terminal, rounds with a language model, and a screen recorder.

- `src/` is the library. It holds every decision of the editor, and Verus proves each function
  against its contract: what is saved and when, what happens when a file changes on disk, which
  blocks of a proposed change are taken over, what a command line for `curl` or `ffmpeg` looks
  like, which pages are drawn, what the menus and the status bar say.
- `tests/` runs the library on concrete values.
- `app/` carries the decisions out: files, processes, the terminal, the Typst engine and the
  window. It holds what works on floating point (places on the screen, contrast) and the impls of
  traits of other crates.

Functions of other crates that the library calls stand behind small wrappers in `json.rs`
(`serde_json`), `diff.rs` (`similar`) and `terminal_view.rs` (`alacritty_terminal`); `chars.rs`
and `text.rs` state what is used of the standard library beyond what `vstd` specifies. Each says
in its comment what is taken for granted.

Properties that hold across functions are public proof functions beside the functions that they
are about; for instance `rejecting_everything_restores_the_old_text` in `diff.rs`,
`closing_loses_nothing_unasked` in `document.rs` and `settings_are_read_back` in `settings.rs`.
