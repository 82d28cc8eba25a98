# ce_editor

The verified core of a modal terminal text editor, written in Verus.

- `src/` holds the editor's logic with its contracts and proofs: the
  rope-backed buffer and its line model (`buffer`, `lines`, `rope`), editing
  operations (`editing`, `paste`, `block`, `textobj`), visual columns and
  grapheme handling (`visual`, `unicode`), the command line and history
  (`cmdline`), substitution (`subst`), windows and buffers (`panes`,
  `opening`, `session`, `bufswitch`), git hunks, patches and the
  side-by-side diff (`patch`, `hunks`, `diff_align`, `diffthis`,
  `diffsync`), the gutter, marks, tags, the health report and the smaller
  helpers. Laws over several operations live beside them (`typing_laws`,
  `line_laws`, and lemmas in `buffer`, `session`, `tag`, `marks`, `panes`,
  `visual`, `gutter`, `diff_align`).
- `tests/` exercises the library on concrete values.
- `app/` is the unverified shell around it: file and process I/O, git
  repository lookups, the clipboard, terminal events and settings files.

Outside crates are reached only through small trusted wrappers whose
contracts state what the crates document: `ropey`, `unicode-segmentation`,
`unicode-width`, `git2` and `serde_json` in `src/`; the rest in `app/`.
