# tpane

A tiling terminal multiplexer: the terminal is split into panes arranged
in a binary tree of vertical and horizontal splits, driven by a prefix key
(`Ctrl+B` by default) and direct key bindings, with mouse focus, divider
dragging, selection copy and clipboard paste. Key bindings and startup
layouts are configured in Lua.

## Layout

- `src/` is the library, written in Verus. Its functions carry contracts
  that Verus proves, except five small wrappers around standard-library
  calls (`String::push`, `str::to_lowercase` and the bounded channel's
  creation, send and receive), whose contracts are taken on trust. The
  interfaces of pane backends, the pane factory and the clipboard state
  their effect on a model of each; implementations written outside Verus
  are trusted to keep to them:
  - `layout`: the pane tree, its rectangles and dividers, splitting,
    closing, focus movement and ratio changes;
  - `keys`, `keymap`, `commands`: key chords, their parsing and display,
    the two binding tables and command names;
  - `encode`: the bytes a key event sends to a shell;
  - `selection`, `pane`: selections and the text they cover;
  - `style`: colours, SGR sequences, spans and hyperlink annotations;
  - `cheatsheet`: the prefix-mode cheatsheet bar;
  - `events`: event mapping and the coalescing event queue;
  - `config`: what a configuration script records (bindings, startup
    commands, named layouts);
  - `app`: the application state machine, modelled as `AppState`, with one
    relation per kind of event, including every call it makes to pane
    backends, the pane factory and the clipboard, and what each backend has
    been handed;
  - `traits`: the interfaces of pane backends, the factory and the
    clipboard;
  - `live`: the bounded channel that carries pane output events.
- `app/` is the program around it: terminal setup, the run loop, the pseudo
  terminals and their emulators, the Lua interpreter, the system clipboard
  and drawing.
- `tests/` runs the library on concrete values.

Ratios are kept in basis points (`5000` is an even split).
