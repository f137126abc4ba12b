# fulgur

The parts of an HTML to PDF renderer that decide rather than draw, verified with
Verus.

- `src/gcpm/` reads the paged-media parts of a style sheet (running elements,
  named strings, counters, bookmarks, page and margin boxes) and resolves
  generated content, page settings and references to other places.
- `src/pageable.rs`, `src/draw.rs`, `src/drawables.rs`, `src/duplicate.rs` and
  `src/multicol.rs` hold
  what a page shows, in which order it is drawn, and how content goes into
  columns. Lengths and paint are type parameters.
- `src/inspect/` reads back what a PDF shows, within limits.
- `src/image_export/` checks image options, writes SVG and encodes pixels.

Tokens, grapheme clusters, PDF objects and image files come from outside crates.
What the library takes from them stands in the contracts of the functions that
call them, each marked `external_body` or `assume_specification`.

`app/` is the rest: files, fonts, rasterizing, and arithmetic in floating point.
