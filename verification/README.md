# nyanmd

The verified core of a vim-style markdown notes app.

- `src/vim.rs` — the editor: a character buffer, a cursor, normal/insert/command
  modes, the two-key commands `dd` and `gg`, and a bounded undo history. Each
  public method's contract states its effect on the editor's abstract state.
- `src/keymap.rs` — that abstract state's transitions: what each normal-mode key
  and each ex command does, with the line, word and cursor facts the proofs use.
- `src/vim_laws.rs` — properties across keys: undo gives back what an edit or an
  insert session changed, motions leave the cursor on a character, a pending
  first key waits for exactly one more key.
- `src/wiki.rs` — `[[note]]` / `[[note|alias]]` rewriting and markdown rendering
  (pulldown-cmark).
- `src/notes.rs` — note file names, preview links, the names that stay inside
  the notes folder (Unix or Windows path syntax), the order of the note list, and
  whether a note links to another (the backlinks panel).
- `src/picker.rs` — the note picker that `[[` opens in insert mode.
- `src/text.rs` — character helpers (the Unicode White_Space set, trimming, string building).
- `app/` — the sycamore web view and the tauri desktop side, which do the I/O
  and call the library.
