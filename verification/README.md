# niffler

A kanban board in the terminal. Boards are directories, lists are directories inside
them, and cards are markdown files whose frontmatter records a position and time
stamps. A `.niffler.yaml` file in each board keeps its name, the preview setting and
the order, titles and border colors of its lists.

## Layout

- `src/` is the library, verified with Verus: the card format (`card.rs`), the board
  metadata file and the merging of it with the list directories (`filesystem.rs`),
  card positions (`positions.rs`), sorting (`sorting.rs`), the configuration file
  (`settings.rs`), the application state (`app.rs`), key handling (`keys.rs`), and
  what the screens show (`tui.rs`, `columns.rs`, `details.rs`, `layout.rs`). The
  laws that span several functions are proved in `laws.rs`, `title_laws.rs`,
  `edit_laws.rs`, `fill_laws.rs`, `refill_laws.rs`, `stamp_laws.rs`, `preview_laws.rs`,
  `slug_laws.rs`, `meta_laws.rs` and `sync_laws.rs`.
- `app/` is the program around it: reading and writing files, running the editor,
  the terminal loop and the drawing with ratatui.
- `tests/` runs the library on concrete values.
