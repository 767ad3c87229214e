# inkpdf

A PDF viewer and annotator for Linux (GTK4/libadwaita): open a PDF or start
from a blank page, draw, type and sketch on top, save the result as a
self-contained `.inkpdf` file (gzip-compressed JSON that embeds the PDF), or
export it as a flattened PDF. PDF parsing and rendering run in a separate,
Landlock- and seccomp-restricted worker process.

## Layout

- `src/` — the library, verified with Verus:
  - `document` — the document model and its page and annotation edits;
  - `text_edit` — the text box editor (caret, selection, styling, runs);
  - `history` — undo/redo;
  - `canvas` — what clicks, drags and key presses do, page positions, and
    how a text-edit session ends (one undo entry, only if it changed the pages);
  - `storage` — compressing and (capped) decompressing documents;
  - `worker_protocol` — the framing of messages to and from the workers;
  - `autosave` — naming and recognizing crash-recovery snapshots;
  - `paths` — file names, extensions, save paths;
  - `file_browser` — what the file browser lists, in which order;
  - `sandbox` — the worker sandbox's Landlock ruleset and seccomp filter,
    and applying them.
- `app/` — the application around it: the user interface, file and process
  I/O, PDF rendering, and the worker processes.
- `tests/` — tests of the library.

Floating-point values (sizes, coordinates, colors) are held by the library
as the bit patterns of their `f64`s; the application converts. Pages are
compared (to decide whether an edit changed them) with `f64` semantics on
those bits: `-0.0` equals `0.0` and a NaN equals nothing. Neighbouring
characters of a text box share a stored run when their styles are
bit-for-bit the same.
