# txt2epub

Turns a plain-text Chinese novel into chapters and builds EPUB 3 books from them, with
optional publishing to a MyBooks server.

- `src/` is the library, verified with Verus:
  - `parser/` decodes a text file (UTF-8, else GBK) and splits it into chapters at the lines
    a title pattern recognises;
  - `export.rs` cuts chapter bodies out of the text by line range;
  - `epub/` renders the XHTML pages (Tera) and plans and packages the book (`epub-builder`);
  - `genre.rs`, `cover.rs` pick header images, presets, cover templates, fonts and colours;
  - `mybooks.rs` holds the server protocol: addresses, reply reading and the publishing steps;
  - `progress.rs` holds where progress reports go (a log, or a callback);
  - `text.rs`, `names.rs` hold the character-level helpers (trimming, lines, extensions,
    ordering by name).
- `app/` is the Tauri shell: commands, file and network I/O, and drawing text on covers.
- `tests/` exercise the library.
