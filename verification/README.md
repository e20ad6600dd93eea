# terminal_rtl

Display-only bidirectional correction for terminal agents. A child program
runs in a pseudo-terminal; its output is parsed into a logical screen, and
only disposable display rows are reordered (Unicode bidi per text field) and
sent to the host terminal. Input, mouse coordinates and query replies are
always answered from the logical screen.

The library in `src/` is verified with Verus:

- `input`: key, paste and mouse encodings for the child.
- `protocol`: replies to terminal queries and the OSC 8 link rules.
- `hyperlink`: bounded, control-free link metadata.
- `display`: cells, bidi reordering of a row into glyphs with column maps
  (`row`, `bidi`, `maps`), the cells that never move (`fixed`), the screen
  snapshot (`screen`), the renderer that repaints only changed rows
  (`renderer`) and the escape sequences a frame can hold (`escapes`).
- `pretty`: Markdown recognition (tables, headings, quotes, lists, code
  fences) and speaker labels.
- `session`: the decisions of a session: input routing, child geometry,
  Windows console input decoding, launching batch files, and the loop's
  timing rules.

`app/` holds the program: argument parsing, the pseudo-terminal, the host
terminal, threads and signals.
