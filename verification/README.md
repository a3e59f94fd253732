# pdf_studier

A keyboard-driven PDF reader for non-fiction books: quick jumps between
single-letter bookmarks, a back key, coloured page tags shown on an overview
panel, per-page crop margins, colour inversion of chosen areas, and reading
positions that follow the reader between machines through a synced folder.

## Layout

- `src/` is the library, verified with Verus. It holds what the reader
  decides: what each key does to a window (`view`), bookmarks and the names
  shown on pages (`bookmarks`, `document`), crop margins, tags and colour
  inversion areas of a book (`document_info`), the recently read books and
  where they were seen (`recent`, `app_state`), the "open another book" list
  and its fuzzy filter (`book_list`, `fuzzy`), book fingerprints, paths and
  the messages between copies of the reader (`text`), pixel inversion
  (`pixels`), the overview panel's tag colours (`scrollbar`) and page layout
  bookkeeping (`positions`). Properties that span several operations are
  stated as public proof functions beside the operations.
- `tests/` runs the library on concrete cases.
- `app/` is the program around it: the windows and widgets, rendering with
  MuPDF, the JSON files, the file watcher and the local socket. Page layout,
  zooming and drawing work in floating point and stay there.
