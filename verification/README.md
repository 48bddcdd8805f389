# reasonix_render

A terminal front end for an agent session: it draws the transcript of cards,
the composer dock, the sidebar and the popups (slash commands, command
arguments, the `@` file picker, approval requests, the mode and preset
pickers), and turns keys and mouse events into events for the host.

The decisions are made by a verified library (`src/`), written in Verus:

- `editor`: cursor and text editing by character index, word jumps, moving
  between lines.
- `controller`, `demo`, `stream`: what a key, a wheel turn or an incoming line
  does to the interactive state, and what is sent back to the host.
- `overlay`, `overlay_at`, `slash_menu`, `approval`, `composer`: what the
  popups and the dock hold and where they go.
- `cards`, `markdown`, `md_render`: card heights, wrapping, diff numbering,
  markdown blocks, the rows each block is painted as, and their counts.
- `frame_cache`, `decode`, `selection`, `viewport`, `scene`, `text`.

Each public function states what it returns in its contract; properties that
relate several calls are stated and proved as `law_*` proof functions.

`app/` is the program around it: terminal set-up, the event loops, reading
and writing JSON lines, painting with `ratatui`, the clipboard, and the
numbers shown with a fractional part. `tests/` exercises the library on
concrete values.
