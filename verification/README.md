# sl_liner

A readline-like line editor whose logic is specified and proved with Verus:
buffers with undo and redo, a cursor over grapheme clusters, history with
search and de-duplication, completion, prompts, terminal layout, and the
Emacs and Vi key bindings.

## Layout

- `src/` is the verified library. Every function there carries a contract
  that Verus checks:
  - `buffer.rs`, `cursor.rs`, `grapheme_iter.rs`, `text.rs`: the text being
    edited, its graphemes, the actions that undo and redo replay, and the
    cursor over it;
  - `editor.rs`, `editor_rules.rs`, `prompt.rs`: the editor state machine
    (editing, history navigation, incremental search, suggestions,
    completion);
  - `history.rs`: the history, its limits, de-duplication and the line
    format of its file;
  - `complete.rs`, `util.rs`: completers, escaping of completions, the
    filename completer's matching, and the longest common prefix;
  - `event.rs`: the events a completer is told of while keys are handled;
  - `keymap.rs`, `keymap/emacs.rs`, `keymap/vi.rs` and `keymap/vi/`: keys
    and the two sets of key bindings;
  - `term.rs`: the arithmetic of laying the line, the cursor and the
    completions out on a terminal of a given width;
  - `segment.rs`, `paths.rs`: the calls into `unicode-segmentation` and
    `unicode-width`, and the few standard library calls without a
    specification (character classes, path handling), each with the
    contract the library relies on;
  - `properties.rs`: laws that relate several operations (what undo and
    redo give back, in a buffer and in the editor, after edits and after a
    history entry is recalled, escaping round trips,
    the history file round trip) and say in closed form what the searches
    and scans find.
- `tests/` runs the library on concrete inputs.
- `app/` is the part that talks to the terminal and the file system: the
  read loop, drawing, reading the directory for the file completer, and
  reading and writing the history file. It hands the library plain
  values and acts on what comes back.
