# eebook

An epub reader and editor whose core is verified with Verus.

- `src/` is the verified library. `chapter` reads a chapter from its HTML
  (with `tl`) and cuts it into pages; `ebook` is the reader's state: loading
  a book, numbering its pages, navigating, jumping, editing a chapter's
  HTML; `search` finds a pattern (with `regex`) in the shown page or chapter
  and finds the page that best matches the text recognised on a photo of a
  paper page; `toolbar` says what the buttons do and when they are enabled;
  `commands` names the files involved in saving a book and plans which file
  receives which edited HTML; `ebook_mod` is the line-based reader, which
  strips a page's markup, records the formatting of its lines, and writes
  the edited book back with `epub-builder`. `laws` states properties that
  relate several operations. Contracts are stated over the models (`@`) of
  the types.
- `app/` is the window (druid), the file and archive work, the OCR engine
  (`tesseract`, run as a process) and the photo viewer (eframe). It hands
  the library plain values and draws what the library gives back.
- `tests/` runs the library on concrete books and texts.
