# codex_tui

The declarative side of the Codex TUI's plugin support, verified with Verus:

- `src/normalize.rs`: a plugin's `tui.json` contribution (status line, footer
  layout, theme, visibility switches, slash commands, key bindings) validated
  field by field into the settings the TUI accepts.
- `src/merge.rs`: the contributions of all plugins combined; later plugins win
  singleton settings, earlier plugins keep command names and keys.
- `src/contribution.rs`: the contribution types, their models, and the small
  queries on them.
- `src/ghostty.rs`, `src/tmtheme.rs`: Ghostty's `+show-config` output read into
  a color snapshot, and a `.tmTheme` syntax theme generated from it.
- `src/terminal.rs`: what a plugin terminal command's output is shown as.
- `src/text.rs`: the string operations above (`trim`, `lines`, `split`,
  `split_whitespace`, ASCII lower case) stated over `Seq<char>` and proved.

`app/` holds what is not verified: JSON decoding with serde, file and process
I/O with tokio and std, ratatui lines, and the floating-point luminance and
color blending, which the library takes as functions.
